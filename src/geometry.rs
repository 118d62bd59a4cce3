//! Points, boxes, contact classification and fixed-point scaling.

use vstd::prelude::*;

verus! {

/// Bound on every coordinate and extent held by the simulation.
pub const COORD_LIMIT: i64 = 0x100_0000_0000;

/// Bound on the components of a direction vector.
pub const DIR_LIMIT: i64 = 0x100_0000;

/// Bound on every speed, in units per second.
pub const SPEED_LIMIT: u64 = 0x1_0000_0000;

/// Bound on the tick rate, in ticks per second.
pub const RATE_LIMIT: u64 = 0x1_0000;

/// A point (or a vector) in arena units.
#[derive(Clone, Copy, Debug, PartialEq, Eq, Structural)]
pub struct Point {
    pub x: i64,
    pub y: i64,
}

/// Half-extents of an axis-aligned box.
#[derive(Clone, Copy, Debug, PartialEq, Eq, Structural)]
pub struct Size {
    pub half_width: i64,
    pub half_height: i64,
}

/// The side of the ball on which a collider was met.
#[derive(Clone, Copy, Debug, PartialEq, Eq, Structural)]
pub enum Side {
    Left,
    Right,
    Top,
    Bottom,
    /// The ball's center lies within the collider.
    Inside,
}

pub open spec fn coord_ok(v: i64) -> bool {
    -COORD_LIMIT <= v <= COORD_LIMIT
}

pub open spec fn point_ok(p: Point) -> bool {
    coord_ok(p.x) && coord_ok(p.y)
}

pub open spec fn size_ok(s: Size) -> bool {
    0 <= s.half_width <= COORD_LIMIT && 0 <= s.half_height <= COORD_LIMIT
}

pub open spec fn min_i(a: int, b: int) -> int {
    if a <= b { a } else { b }
}

pub open spec fn max_i(a: int, b: int) -> int {
    if a >= b { a } else { b }
}

pub open spec fn clamp_i(v: int, lo: int, hi: int) -> int {
    if v < lo { lo } else if v > hi { hi } else { v }
}

/// The two boxes share interior area.
pub open spec fn overlaps(p: Point, s: Size, q: Point, t: Size) -> bool {
    &&& p.x - s.half_width < q.x + t.half_width
    &&& p.x + s.half_width > q.x - t.half_width
    &&& p.y - s.half_height < q.y + t.half_height
    &&& p.y + s.half_height > q.y - t.half_height
}

/// The center `p` lies strictly within the box around `q`.
pub open spec fn center_inside(p: Point, q: Point, t: Size) -> bool {
    &&& q.x - t.half_width < p.x < q.x + t.half_width
    &&& q.y - t.half_height < p.y < q.y + t.half_height
}

/// Penetration depth of the two boxes along the horizontal axis.
pub open spec fn depth_x(p: Point, s: Size, q: Point, t: Size) -> int {
    min_i(p.x + s.half_width, q.x + t.half_width) - max_i(p.x - s.half_width, q.x - t.half_width)
}

/// Penetration depth of the two boxes along the vertical axis.
pub open spec fn depth_y(p: Point, s: Size, q: Point, t: Size) -> int {
    min_i(p.y + s.half_height, q.y + t.half_height) - max_i(p.y - s.half_height, q.y - t.half_height)
}

/// Where a ball (center `p`, half-extents `s`) meets a collider (center `q`,
/// half-extents `t`): `None` without overlap; `Inside` when the ball's center
/// lies within the collider; otherwise the axis of the smaller penetration
/// depth (horizontal on a tie) and the side of the ball facing the collider.
pub open spec fn classify_spec(p: Point, s: Size, q: Point, t: Size) -> Option<Side> {
    if !overlaps(p, s, q, t) {
        None
    } else if center_inside(p, q, t) {
        Some(Side::Inside)
    } else if depth_x(p, s, q, t) <= depth_y(p, s, q, t) {
        if q.x > p.x { Some(Side::Right) } else { Some(Side::Left) }
    } else {
        if q.y > p.y { Some(Side::Top) } else { Some(Side::Bottom) }
    }
}

/// Classifies the contact between a ball and a collider.
pub fn classify(p: Point, s: Size, q: Point, t: Size) -> (r: Option<Side>)
    requires
        point_ok(p),
        point_ok(q),
        size_ok(s),
        size_ok(t),
    ensures
        r == classify_spec(p, s, q, t),
{
    let a_min_x = p.x - s.half_width;
    let a_max_x = p.x + s.half_width;
    let a_min_y = p.y - s.half_height;
    let a_max_y = p.y + s.half_height;
    let b_min_x = q.x - t.half_width;
    let b_max_x = q.x + t.half_width;
    let b_min_y = q.y - t.half_height;
    let b_max_y = q.y + t.half_height;
    if !(a_min_x < b_max_x && a_max_x > b_min_x && a_min_y < b_max_y && a_max_y > b_min_y) {
        return None;
    }
    if b_min_x < p.x && p.x < b_max_x && b_min_y < p.y && p.y < b_max_y {
        return Some(Side::Inside);
    }
    let lo_x = if a_min_x >= b_min_x { a_min_x } else { b_min_x };
    let hi_x = if a_max_x <= b_max_x { a_max_x } else { b_max_x };
    let lo_y = if a_min_y >= b_min_y { a_min_y } else { b_min_y };
    let hi_y = if a_max_y <= b_max_y { a_max_y } else { b_max_y };
    if hi_x - lo_x <= hi_y - lo_y {
        if q.x > p.x { Some(Side::Right) } else { Some(Side::Left) }
    } else {
        if q.y > p.y { Some(Side::Top) } else { Some(Side::Bottom) }
    }
}

/// Clamps `v` into `[lo, hi]`.
pub fn clamp(v: i64, lo: i64, hi: i64) -> (r: i64)
    requires
        lo <= hi,
    ensures
        r == clamp_i(v as int, lo as int, hi as int),
        lo <= r <= hi,
{
    if v < lo {
        lo
    } else if v > hi {
        hi
    } else {
        v
    }
}

/// `r` is the integer square root of `n`.
pub open spec fn is_isqrt(n: int, r: int) -> bool {
    0 <= r && r * r <= n < (r + 1) * (r + 1)
}

/// The integer square root (the largest `r` with `r * r <= n`).
pub fn isqrt(n: u128) -> (r: u64)
    requires
        n < 0x4000_0000_0000_0000_0000_0000_0000_0000,
    ensures
        is_isqrt(n as int, r as int),
{
    let mut lo: u128 = 0;
    let mut hi: u128 = 0x8000_0000_0000_0000;
    assert(hi * hi == 0x4000_0000_0000_0000_0000_0000_0000_0000) by (nonlinear_arith)
        requires hi == 0x8000_0000_0000_0000u128;
    while hi - lo > 1
        invariant
            lo < hi <= 0x8000_0000_0000_0000,
            lo * lo <= n < hi * hi,
        decreases hi - lo,
    {
        let mid = lo + (hi - lo) / 2;
        assert(mid * mid <= 0x8000_0000_0000_0000u128 * 0x8000_0000_0000_0000u128) by (nonlinear_arith)
            requires mid < 0x8000_0000_0000_0000u128;
        if mid * mid <= n {
            lo = mid;
        } else {
            hi = mid;
        }
    }
    assert(hi == lo + 1);
    lo as u64
}

pub open spec fn abs_i(v: int) -> int {
    if v < 0 { -v } else { v }
}

/// `r` is the displacement along one axis in one tick: a motion along a
/// direction whose component on that axis is `c` and whose squared length is
/// `n`, at `speed` units per second and `rate` ticks per second. Its magnitude
/// is `|c| * speed / (rate * sqrt(n))` rounded down, and it has the sign of `c`.
pub open spec fn is_step(c: int, n: int, speed: int, rate: int, r: int) -> bool {
    let a = abs_i(r);
    &&& a * a * (rate * rate * n) <= c * c * (speed * speed)
    &&& c * c * (speed * speed) < (a + 1) * (a + 1) * (rate * rate * n)
    &&& (c >= 0 ==> r >= 0)
    &&& (c <= 0 ==> r <= 0)
}

/// The displacement along one axis in one tick (see `is_step`).
pub fn step_component(c: i64, n: u128, speed: u64, rate: u64) -> (r: i64)
    requires
        c * c <= n,
        0 < n <= 0x8000_0000_0000_0000_0000_0000,
        (c * c) * (speed * speed) < 0x4000_0000_0000_0000_0000_0000_0000_0000,
        speed <= SPEED_LIMIT,
        1 <= rate <= RATE_LIMIT,
    ensures
        is_step(c as int, n as int, speed as int, rate as int, r as int),
        abs_i(r as int) <= speed,
{
    assert(-0x1_0000_0000_0000 < c < 0x1_0000_0000_0000) by (nonlinear_arith)
        requires c * c <= n, n <= 0x8000_0000_0000_0000_0000_0000;
    let m: u64 = if c < 0 { (-c) as u64 } else { c as u64 };
    let mm = m as u128;
    let sp = speed as u128;
    let rt = rate as u128;
    assert(mm * mm == c * c) by (nonlinear_arith)
        requires mm == abs_i(c as int);
    assert(mm * mm < 0x1_0000_0000_0000_0000_0000_0000) by (nonlinear_arith)
        requires mm < 0x1_0000_0000_0000;
    assert(sp * sp <= 0x1_0000_0000_0000_0000) by (nonlinear_arith)
        requires sp <= 0x1_0000_0000;
    assert(rt * rt <= 0x1_0000_0000) by (nonlinear_arith)
        requires rt <= 0x1_0000;
    assert((rt * rt) * n <= 0x1_0000_0000 * 0x8000_0000_0000_0000_0000_0000) by (nonlinear_arith)
        requires rt * rt <= 0x1_0000_0000, n <= 0x8000_0000_0000_0000_0000_0000;
    assert(1 <= (rt * rt) * n) by (nonlinear_arith)
        requires 1 <= rt, 1 <= n;
    let num: u128 = (mm * mm) * (sp * sp);
    let den: u128 = (rt * rt) * n;
    let q: u128 = num / den;
    let a = isqrt(q);
    assert(m * m == c * c) by (nonlinear_arith)
        requires m == abs_i(c as int);
    assert(num as int == (c as int * c as int) * (speed as int * speed as int)) by (nonlinear_arith)
        requires num == (mm * mm) * (sp * sp), mm == m, sp == speed, m * m == c * c;
    assert(den as int == (rate as int * rate as int) * n as int);
    let ghost ai = a as int;
    let ghost qi = q as int;
    let ghost di = den as int;
    let ghost ni = num as int;
    assert(qi * di <= ni && ni < (qi + 1) * di) by (nonlinear_arith)
        requires qi == ni / di, di > 0;
    assert(ai * ai * di <= ni) by (nonlinear_arith)
        requires ai * ai <= qi, qi * di <= ni, di > 0;
    assert(ni < (ai + 1) * (ai + 1) * di) by (nonlinear_arith)
        requires qi + 1 <= (ai + 1) * (ai + 1), ni < (qi + 1) * di, di > 0;
    assert(ai <= speed) by (nonlinear_arith)
        requires
            ai * ai * di <= ni,
            ni == (m * m) * (speed * speed),
            di == (rate * rate) * n,
            m * m <= n,
            n > 0,
            rate >= 1,
            ai >= 0,
    {
        assert(ai * ai * n <= ai * ai * di);
        assert(ni <= n * (speed * speed));
        assert(ai * ai <= speed * speed);
        if ai > speed {
            assert(ai * ai > speed * speed);
        }
    }
    assert(c == 0 ==> ai == 0) by (nonlinear_arith)
        requires ai * ai * di <= ni, ni == (c * c) * (speed * speed), di > 0, ai >= 0;
    let r: i64 = if c < 0 { -(a as i64) } else { a as i64 };
    assert(abs_i(r as int) == ai);
    assert(ai * ai * ((rate as int * rate as int) * n as int) <= (c as int * c as int) * (speed as int * speed as int));
    assert((c as int * c as int) * (speed as int * speed as int) < (ai + 1) * (ai + 1) * ((rate as int * rate as int) * n as int));
    r
}

} // verus!
