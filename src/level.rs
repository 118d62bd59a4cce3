//! Level layout: walls given as thick segments, turned into entities.

use vstd::prelude::*;
use crate::geometry::{abs_i, is_step, point_ok, step_component, Point, Size, COORD_LIMIT};
use crate::world::{Entity, Role, Wall};

verus! {

/// Bound on a wall's thickness.
pub const THICKNESS_LIMIT: i64 = 0x10_0000;

/// A wall as laid out in a level: the segment between two ends, widened by
/// `thickness` on each side, and the player it credits, if any.
#[derive(Clone, Copy, Debug, PartialEq, Eq)]
pub struct WallSegment {
    pub ends: (Point, Point),
    pub thickness: i64,
    pub scoring_player: Option<usize>,
}

pub open spec fn segment_ok(w: WallSegment) -> bool {
    point_ok(w.ends.0) && point_ok(w.ends.1) && 0 <= w.thickness <= THICKNESS_LIMIT
}

/// The midpoint of `a` and `b`, rounded down.
pub open spec fn midpoint(a: int, b: int) -> int {
    (a + b) / 2
}

/// `s` holds the half-extents of the box around a thick segment from `a` to
/// `b`: half the segment's extent along each axis plus the thickness times
/// the unit normal's component on that axis, each part rounded down. A
/// segment of zero length has none.
pub open spec fn is_half_extents(a: Point, b: Point, t: int, s: Size) -> bool {
    let dx = b.x - a.x;
    let dy = b.y - a.y;
    let n = dx * dx + dy * dy;
    if n == 0 {
        s.half_width == 0 && s.half_height == 0
    } else {
        exists|ox: int, oy: int|
            #![trigger is_step(dy, n, t, 1, ox), is_step(dx, n, t, 1, oy)]
            is_step(dy, n, t, 1, ox) && is_step(dx, n, t, 1, oy)
            && s.half_width == abs_i(dx) / 2 + abs_i(ox)
            && s.half_height == abs_i(dy) / 2 + abs_i(oy)
    }
}

fn mid(a: i64, b: i64) -> (r: i64)
    requires
        -0x100_0000_0000 <= a <= 0x100_0000_0000,
        -0x100_0000_0000 <= b <= 0x100_0000_0000,
    ensures
        r == midpoint(a as int, b as int),
{
    let (lo, hi) = if a <= b { (a, b) } else { (b, a) };
    let half = ((hi - lo) as u64 / 2) as i64;
    assert(lo + half == (a + b) / 2);
    lo + half
}

impl WallSegment {
    /// Checks that the ends and the thickness are within limits.
    pub fn check(&self) -> (r: bool)
        ensures
            r == segment_ok(*self),
    {
        let lim = COORD_LIMIT;
        -lim <= self.ends.0.x && self.ends.0.x <= lim && -lim <= self.ends.0.y && self.ends.0.y <= lim
            && -lim <= self.ends.1.x && self.ends.1.x <= lim && -lim <= self.ends.1.y && self.ends.1.y <= lim
            && 0 <= self.thickness && self.thickness <= THICKNESS_LIMIT
    }

    pub fn end_a(&self) -> (r: Point)
        ensures
            r == self.ends.0,
    {
        self.ends.0
    }

    pub fn end_b(&self) -> (r: Point)
        ensures
            r == self.ends.1,
    {
        self.ends.1
    }

    pub fn thickness(&self) -> (r: i64)
        ensures
            r == self.thickness,
    {
        self.thickness
    }

    /// The center of the wall: the midpoint of its ends.
    pub fn translation(&self) -> (r: Point)
        requires
            segment_ok(*self),
        ensures
            r.x == midpoint(self.ends.0.x as int, self.ends.1.x as int),
            r.y == midpoint(self.ends.0.y as int, self.ends.1.y as int),
    {
        Point { x: mid(self.ends.0.x, self.ends.1.x), y: mid(self.ends.0.y, self.ends.1.y) }
    }

    /// The half-extents of the axis-aligned box around the wall.
    pub fn scale(&self) -> (r: Size)
        requires
            segment_ok(*self),
        ensures
            is_half_extents(self.ends.0, self.ends.1, self.thickness as int, r),
    {
        let a = self.ends.0;
        let b = self.ends.1;
        let dx = b.x - a.x;
        let dy = b.y - a.y;
        let wx = dx as i128;
        let wy = dy as i128;
        assert(wx * wx <= 0x4_0000_0000_0000_0000_0000 && wy * wy <= 0x4_0000_0000_0000_0000_0000) by (nonlinear_arith)
            requires -0x200_0000_0000 <= wx <= 0x200_0000_0000, -0x200_0000_0000 <= wy <= 0x200_0000_0000;
        assert(wx * wx >= 0 && wy * wy >= 0) by (nonlinear_arith);
        let n = (wx * wx + wy * wy) as u128;
        let ax: u64 = if dx < 0 { (-dx) as u64 } else { dx as u64 };
        let ay: u64 = if dy < 0 { (-dy) as u64 } else { dy as u64 };
        let base_w = (ax / 2) as i64;
        let base_h = (ay / 2) as i64;
        if n == 0 {
            assert(dx == 0 && dy == 0) by (nonlinear_arith)
                requires wx * wx + wy * wy == 0, wx == dx, wy == dy;
            return Size { half_width: 0, half_height: 0 };
        }
        let t = self.thickness as u64;
        assert((wx * wx) * (t as int * t as int) < 0x4000_0000_0000_0000_0000_0000_0000_0000
            && (wy * wy) * (t as int * t as int) < 0x4000_0000_0000_0000_0000_0000_0000_0000) by (nonlinear_arith)
            requires
                wx * wx <= 0x4_0000_0000_0000_0000_0000,
                wy * wy <= 0x4_0000_0000_0000_0000_0000,
                0 <= t <= 0x10_0000,
        {
            assert(t as int * t as int <= 0x100_0000_0000);
        }
        let ox = step_component(dy, n, t, 1);
        let oy = step_component(dx, n, t, 1);
        let hw = base_w + if ox < 0 { -ox } else { ox };
        let hh = base_h + if oy < 0 { -oy } else { oy };
        let r = Size { half_width: hw, half_height: hh };
        assert(is_step(dy as int, n as int, t as int, 1, ox as int) && is_step(dx as int, n as int, t as int, 1, oy as int));
        r
    }

    /// The wall as an entity of the store.
    pub fn to_entity(&self) -> (r: Entity)
        requires
            segment_ok(*self),
        ensures
            r.position.x == midpoint(self.ends.0.x as int, self.ends.1.x as int),
            r.position.y == midpoint(self.ends.0.y as int, self.ends.1.y as int),
            is_half_extents(self.ends.0, self.ends.1, self.thickness as int, r.size),
            r.role == Role::Wall(Wall { scoring_player: self.scoring_player }),
    {
        Entity {
            position: self.translation(),
            size: self.scale(),
            role: Role::Wall(Wall { scoring_player: self.scoring_player }),
        }
    }
}

/// The dimensions of a brick.
#[derive(Clone, Copy, Debug, PartialEq, Eq, Structural)]
pub struct ParametersBrick {
    pub width: i64,
    pub height: i64,
}

impl ParametersBrick {
    /// The half-extents of a brick, rounded down.
    pub fn size(&self) -> (r: Size)
        requires
            self.width >= 0,
            self.height >= 0,
        ensures
            r.half_width == self.width / 2,
            r.half_height == self.height / 2,
    {
        Size { half_width: self.width / 2, half_height: self.height / 2 }
    }

    /// A brick centered at `at`.
    pub fn brick_at(&self, at: Point) -> (r: Entity)
        requires
            self.width >= 0,
            self.height >= 0,
        ensures
            r.position == at,
            r.size.half_width == self.width / 2,
            r.size.half_height == self.height / 2,
            r.role == Role::Brick,
    {
        Entity { position: at, size: self.size(), role: Role::Brick }
    }
}

} // verus!
