//! Integer geometry: coordinates, sizes, rectangles and margins.
//!
//! Sums and differences are clamped to the range of the component type, so
//! every operation is total.

use vstd::prelude::*;

verus! {

/// `v` clamped to the range of `u32`.
pub open spec fn clamp_u32(v: int) -> u32 {
    if v < 0 {
        0u32
    } else if v > u32::MAX {
        u32::MAX
    } else {
        v as u32
    }
}

/// `v` clamped to the range of `i32`.
pub open spec fn clamp_i32(v: int) -> i32 {
    if v < i32::MIN {
        i32::MIN
    } else if v > i32::MAX {
        i32::MAX
    } else {
        v as i32
    }
}

/// Sum of two extents, clamped to `u32`.
pub fn add_extent(a: u32, b: u32) -> (r: u32)
    ensures
        r == clamp_u32(a + b),
{
    if a > u32::MAX - b {
        u32::MAX
    } else {
        a + b
    }
}

/// Difference of two extents, clamped at zero.
pub fn sub_extent(a: u32, b: u32) -> (r: u32)
    ensures
        r == clamp_u32(a - b),
{
    if a < b {
        0
    } else {
        a - b
    }
}

/// An ordinate moved by an extent, clamped to `i32`.
pub fn offset_ordinate(p: i32, d: u32) -> (r: i32)
    ensures
        r == clamp_i32(p + d),
{
    let v: i64 = p as i64 + d as i64;
    if v > i32::MAX as i64 {
        i32::MAX
    } else {
        v as i32
    }
}

/// A position in pixels: `(x, y)`.
#[derive(Clone, Copy, Debug, PartialEq, Eq, Structural)]
pub struct Coord(pub i32, pub i32);

/// An extent in pixels: `(width, height)`.
#[derive(Clone, Copy, Debug, PartialEq, Eq, Structural)]
pub struct Size(pub u32, pub u32);

/// An axis-aligned rectangle.
#[derive(Clone, Copy, Debug, PartialEq, Eq, Structural)]
pub struct Rect {
    pub pos: Coord,
    pub size: Size,
}

/// Margins in pixels, each as `(leading, trailing)`.
#[derive(Clone, Copy, Debug, PartialEq, Eq)]
pub struct Margins {
    pub horiz: (u16, u16),
    pub vert: (u16, u16),
}

impl Coord {
    /// The origin.
    pub fn zero() -> (r: Coord)
        ensures
            r == Coord(0, 0),
    {
        Coord(0, 0)
    }

    /// The position `self` moved right and down by `d`.
    pub open spec fn spec_offset(self, d: Size) -> Coord {
        Coord(clamp_i32(self.0 + d.0), clamp_i32(self.1 + d.1))
    }

    #[verifier::when_used_as_spec(spec_offset)]
    pub fn offset(self, d: Size) -> (r: Coord)
        ensures
            r == self.spec_offset(d),
    {
        Coord(offset_ordinate(self.0, d.0), offset_ordinate(self.1, d.1))
    }
}

impl Size {
    /// The empty extent.
    pub fn zero() -> (r: Size)
        ensures
            r == Size(0, 0),
    {
        Size(0, 0)
    }

    /// Componentwise sum.
    pub open spec fn spec_plus(self, rhs: Size) -> Size {
        Size(clamp_u32(self.0 + rhs.0), clamp_u32(self.1 + rhs.1))
    }

    /// Componentwise difference.
    pub open spec fn spec_minus(self, rhs: Size) -> Size {
        Size(clamp_u32(self.0 - rhs.0), clamp_u32(self.1 - rhs.1))
    }

    #[verifier::when_used_as_spec(spec_plus)]
    pub fn plus(self, rhs: Size) -> (r: Size)
        ensures
            r == self.spec_plus(rhs),
    {
        Size(add_extent(self.0, rhs.0), add_extent(self.1, rhs.1))
    }

    #[verifier::when_used_as_spec(spec_minus)]
    pub fn minus(self, rhs: Size) -> (r: Size)
        ensures
            r == self.spec_minus(rhs),
    {
        Size(sub_extent(self.0, rhs.0), sub_extent(self.1, rhs.1))
    }
}

impl Rect {
    /// Whether `c` lies within the rectangle: the left and top edges belong
    /// to it, the right and bottom edges do not.
    pub open spec fn spec_contains(&self, c: Coord) -> bool {
        &&& self.pos.0 <= c.0 < self.pos.0 + self.size.0
        &&& self.pos.1 <= c.1 < self.pos.1 + self.size.1
    }

    /// The rectangle left when `lead` is cut off at the top left and `trail`
    /// at the bottom right.
    pub open spec fn spec_shrunk(&self, lead: Size, trail: Size) -> Rect {
        Rect { pos: self.pos.spec_offset(lead), size: self.size.spec_minus(lead.spec_plus(trail)) }
    }

    pub fn new(pos: Coord, size: Size) -> (r: Rect)
        ensures
            r == (Rect { pos, size }),
    {
        Rect { pos, size }
    }

    #[verifier::when_used_as_spec(spec_contains)]
    pub fn contains(&self, c: Coord) -> (r: bool)
        ensures
            r == self.spec_contains(c),
    {
        let x: i64 = c.0 as i64;
        let y: i64 = c.1 as i64;
        x >= self.pos.0 as i64 && x < self.pos.0 as i64 + self.size.0 as i64 && y
            >= self.pos.1 as i64 && y < self.pos.1 as i64 + self.size.1 as i64
    }

    #[verifier::when_used_as_spec(spec_shrunk)]
    pub fn shrunk(&self, lead: Size, trail: Size) -> (r: Rect)
        ensures
            r == self.spec_shrunk(lead, trail),
    {
        Rect { pos: self.pos.offset(lead), size: self.size.minus(lead.plus(trail)) }
    }
}

impl Margins {
    /// No margin on any side.
    pub fn zero() -> (r: Margins)
        ensures
            r == (Margins { horiz: (0u16, 0u16), vert: (0u16, 0u16) }),
    {
        Margins { horiz: (0, 0), vert: (0, 0) }
    }
}

} // verus!
