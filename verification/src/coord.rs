//! Board coordinates: integer nanometres.

use vstd::prelude::*;

verus! {

/// Everything is stored in nanometres.
pub type Coord = i64;

pub const NM_PER_MM: Coord = 1_000_000;

pub const NM_PER_MIL: Coord = 25_400;

pub const NM_PER_INCH: Coord = 25_400_000;

pub const NM_PER_UM: Coord = 1_000;

/// A display unit.
#[derive(Debug, Clone, Copy, PartialEq, Eq, Hash, Structural)]
pub enum Unit {
    Mm,
    Mil,
    Inch,
    Micrometer,
}

impl Unit {
    /// The unit's symbol as shown to users (`mm`, `mil`, `in`, `um`).
    pub fn symbol(self) -> (r: &'static str)
        ensures
            r@ == match self {
                Unit::Mm => "mm"@,
                Unit::Mil => "mil"@,
                Unit::Inch => "in"@,
                Unit::Micrometer => "um"@,
            },
    {
        match self {
            Unit::Mm => "mm",
            Unit::Mil => "mil",
            Unit::Inch => "in",
            Unit::Micrometer => "um",
        }
    }

    /// Nanometres in one unit.
    pub fn nm_per_unit(self) -> (r: Coord)
        ensures
            r == match self {
                Unit::Mm => NM_PER_MM,
                Unit::Mil => NM_PER_MIL,
                Unit::Inch => NM_PER_INCH,
                Unit::Micrometer => NM_PER_UM,
            },
    {
        match self {
            Unit::Mm => NM_PER_MM,
            Unit::Mil => NM_PER_MIL,
            Unit::Inch => NM_PER_INCH,
            Unit::Micrometer => NM_PER_UM,
        }
    }
}

/// A board vector in nanometres.
#[derive(Debug, Clone, Copy, PartialEq, Eq, Hash, Structural)]
pub struct Vec2 {
    pub x: Coord,
    pub y: Coord,
}

impl Vec2 {
    /// The origin.
    pub fn zero() -> (r: Vec2)
        ensures
            r.x == 0 && r.y == 0,
    {
        Vec2 { x: 0, y: 0 }
    }

    pub fn new(x: Coord, y: Coord) -> (r: Vec2)
        ensures
            r.x == x && r.y == y,
    {
        Vec2 { x, y }
    }

    /// Component-wise sum (the sum must fit in a coordinate).
    pub fn plus(self, rhs: Vec2) -> (r: Vec2)
        requires
            i64::MIN <= self.x + rhs.x <= i64::MAX,
            i64::MIN <= self.y + rhs.y <= i64::MAX,
        ensures
            r.x == self.x + rhs.x && r.y == self.y + rhs.y,
    {
        Vec2 { x: self.x + rhs.x, y: self.y + rhs.y }
    }

    /// Component-wise difference (it must fit in a coordinate).
    pub fn minus(self, rhs: Vec2) -> (r: Vec2)
        requires
            i64::MIN <= self.x - rhs.x <= i64::MAX,
            i64::MIN <= self.y - rhs.y <= i64::MAX,
        ensures
            r.x == self.x - rhs.x && r.y == self.y - rhs.y,
    {
        Vec2 { x: self.x - rhs.x, y: self.y - rhs.y }
    }

    /// The opposite vector (neither component may be `i64::MIN`).
    pub fn negate(self) -> (r: Vec2)
        requires
            self.x != i64::MIN,
            self.y != i64::MIN,
        ensures
            r.x == -self.x && r.y == -self.y,
    {
        Vec2 { x: -self.x, y: -self.y }
    }
}

/// Common mm-based grids: 0.1, 0.25, 0.5, 1.0, 2.5 and 5.0 mm.
pub fn grid_mm() -> (r: Vec<Coord>)
    ensures
        r@ == seq![100_000i64, 250_000, 500_000, 1_000_000, 2_500_000, 5_000_000],
{
    let r = vec![100_000i64, 250_000, 500_000, 1_000_000, 2_500_000, 5_000_000];
    assert(r@ =~= seq![100_000i64, 250_000, 500_000, 1_000_000, 2_500_000, 5_000_000]);
    r
}

/// Common mil-based grids: 1, 5, 10, 25, 50 and 100 mil.
pub fn grid_mil() -> (r: Vec<Coord>)
    ensures
        r@ == seq![25_400i64, 127_000, 254_000, 635_000, 1_270_000, 2_540_000],
{
    let r = vec![25_400i64, 127_000, 254_000, 635_000, 1_270_000, 2_540_000];
    assert(r@ =~= seq![25_400i64, 127_000, 254_000, 635_000, 1_270_000, 2_540_000]);
    r
}

/// Micrometre-based grids: 1, 5, 10, 25, 50 and 100 um.
pub fn grid_micrometer() -> (r: Vec<Coord>)
    ensures
        r@ == seq![1_000i64, 5_000, 10_000, 25_000, 50_000, 100_000],
{
    let r = vec![1_000i64, 5_000, 10_000, 25_000, 50_000, 100_000];
    assert(r@ =~= seq![1_000i64, 5_000, 10_000, 25_000, 50_000, 100_000]);
    r
}

} // verus!
