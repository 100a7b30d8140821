//! Render distance: which chunk locations surround a centre chunk.
use vstd::prelude::*;
use crate::geometry::ChunkLocation;

verus! {

/// Number of chunks rendered in each direction from the centre, per axis.
#[derive(Clone, Copy, Debug, PartialEq, Eq, Hash, Structural)]
pub struct RenderDistance(pub u16, pub u16, pub u16);

impl Default for RenderDistance {
    /// No chunk beyond the centre.
    fn default() -> (d: RenderDistance)
        ensures
            d.0 == 0 && d.1 == 0 && d.2 == 0,
    {
        RenderDistance(0, 0, 0)
    }
}

/// Whether `c` lies at most `r` away from `center` along one axis.
pub open spec fn axis_within(c: int, center: int, r: int) -> bool {
    center - r <= c <= center + r
}

/// Whether the offset computations of the render distance test stay in `i32`
/// along one axis.
pub open spec fn axis_fits(c: int, center: int, r: int) -> bool {
    i32::MIN <= c - center <= i32::MAX && i32::MIN <= c - center + r <= i32::MAX
}

impl RenderDistance {
    /// Whether `loc` lies in the box of chunks rendered around `center`.
    pub open spec fn covers(self, loc: ChunkLocation, center: ChunkLocation) -> bool {
        &&& axis_within(loc.x as int, center.x as int, self.0 as int)
        &&& axis_within(loc.y as int, center.y as int, self.1 as int)
        &&& axis_within(loc.z as int, center.z as int, self.2 as int)
    }

    /// Whether testing `loc` against `center` stays within `i32` arithmetic.
    pub open spec fn fits(self, loc: ChunkLocation, center: ChunkLocation) -> bool {
        &&& axis_fits(loc.x as int, center.x as int, self.0 as int)
        &&& axis_fits(loc.y as int, center.y as int, self.1 as int)
        &&& axis_fits(loc.z as int, center.z as int, self.2 as int)
    }

    /// Whether the box around `center` has all its corners in `i32`.
    pub open spec fn box_fits(self, center: ChunkLocation) -> bool {
        &&& i32::MIN <= center.x - self.0 && center.x + self.0 <= i32::MAX
        &&& i32::MIN <= center.y - self.1 && center.y + self.1 <= i32::MAX
        &&& i32::MIN <= center.z - self.2 && center.z + self.2 <= i32::MAX
    }

    pub open spec fn spec_total_chunks(self) -> int {
        (2 * self.0 + 1) * (2 * self.1 + 1) * (2 * self.2 + 1)
    }

    /// Number of chunk locations in the rendered box.
    pub fn total_chunks(&self) -> (n: u64)
        ensures
            n == self.spec_total_chunks(),
    {
        let a: u64 = 2 * (self.0 as u64) + 1;
        let b: u64 = 2 * (self.1 as u64) + 1;
        let c: u64 = 2 * (self.2 as u64) + 1;
        assert(a * b <= 131071 * 131071) by (nonlinear_arith)
            requires
                a <= 131071,
                b <= 131071,
        ;
        assert(a * b * c <= 131071 * 131071 * 131071) by (nonlinear_arith)
            requires
                a * b <= 131071 * 131071,
                c <= 131071,
        ;
        a * b * c
    }
}

/// Locations whose coordinates are small enough for chunk arithmetic always
/// fit the render distance test.
pub proof fn lemma_in_range_fits(loc: ChunkLocation, center: ChunkLocation, rd: RenderDistance)
    requires
        loc.in_range(),
        center.in_range(),
    ensures
        rd.fits(loc, center),
{
}

/// Lexicographic order on chunk locations by `x`, then `z`, then `y`: the order
/// in which the rendered box is listed.
pub open spec fn xzy_before(a: ChunkLocation, b: ChunkLocation) -> bool {
    a.x < b.x || (a.x == b.x && (a.z < b.z || (a.z == b.z && a.y < b.y)))
}

/// Whether `loc` comes before the cursor `(x, z, y)` in `x`, `z`, `y` order.
pub open spec fn before_cursor(loc: ChunkLocation, x: int, z: int, y: int) -> bool {
    loc.x < x || (loc.x == x && (loc.z < z || (loc.z == z && loc.y < y)))
}

} // verus!
