//! Velocities, reflection, the speed ramp and the paddle controller.

use vstd::prelude::*;
use crate::geometry::{
    abs_i, clamp, clamp_i, is_step, point_ok, step_component, Point, Side, DIR_LIMIT, RATE_LIMIT,
    SPEED_LIMIT,
};

verus! {

/// Bound on the growth numerator of the speed ramp.
pub const GROWTH_LIMIT: u64 = 0x8000_0000;

/// Bound on the number of controls of one player active in one tick.
pub const MAX_ACTIVE_CONTROLS: usize = 64;

/// A velocity: the direction `(x, y)`, scaled to length `speed` (units per
/// second). A zero direction stands for a velocity of magnitude zero.
#[derive(Clone, Copy, Debug, PartialEq, Eq, Structural)]
pub struct Velocity {
    pub x: i64,
    pub y: i64,
    pub speed: u64,
}

pub open spec fn dir_ok(x: i64, y: i64) -> bool {
    -DIR_LIMIT <= x <= DIR_LIMIT && -DIR_LIMIT <= y <= DIR_LIMIT
}

/// A ball's velocity: a non-zero direction within limits, a speed within limits.
pub open spec fn velocity_ok(v: Velocity) -> bool {
    &&& dir_ok(v.x, v.y)
    &&& (v.x != 0 || v.y != 0)
    &&& v.speed <= SPEED_LIMIT
}

/// The length of the velocity vector.
pub open spec fn magnitude(v: Velocity) -> int {
    if v.x == 0 && v.y == 0 { 0 } else { v.speed as int }
}

/// Reflection on contact: only the axis of the side, and only when the ball
/// moves into the collider on that axis.
pub open spec fn reflect_spec(v: Velocity, side: Side) -> Velocity {
    match side {
        Side::Right => if v.x > 0 { Velocity { x: (-v.x) as i64, ..v } } else { v },
        Side::Left => if v.x < 0 { Velocity { x: (-v.x) as i64, ..v } } else { v },
        Side::Top => if v.y > 0 { Velocity { y: (-v.y) as i64, ..v } } else { v },
        Side::Bottom => if v.y < 0 { Velocity { y: (-v.y) as i64, ..v } } else { v },
        Side::Inside => v,
    }
}

/// Reflects a ball's velocity off a collider met on `side`.
pub fn reflect(v: Velocity, side: Side) -> (r: Velocity)
    requires
        dir_ok(v.x, v.y),
    ensures
        r == reflect_spec(v, side),
        dir_ok(r.x, r.y),
        side == Side::Right && v.x > 0 ==> r.x < 0,
        side == Side::Left && v.x > 0 ==> r.x == v.x,
        r.speed == v.speed,
{
    match side {
        Side::Right => if v.x > 0 { Velocity { x: -v.x, ..v } } else { v },
        Side::Left => if v.x < 0 { Velocity { x: -v.x, ..v } } else { v },
        Side::Top => if v.y > 0 { Velocity { y: -v.y, ..v } } else { v },
        Side::Bottom => if v.y < 0 { Velocity { y: -v.y, ..v } } else { v },
        Side::Inside => v,
    }
}

/// The speed after one collision: below `max`, multiplied by `num / den`
/// (rounded down) and capped at `max`; at or above `max`, unchanged.
pub open spec fn ramped(speed: u64, max: u64, num: u64, den: u64) -> u64 {
    if speed < max {
        let grown = (speed as int * num as int) / den as int;
        if grown > max { max } else { grown as u64 }
    } else {
        speed
    }
}

/// Applies the speed ramp once.
pub fn ramp_speed(speed: u64, max: u64, num: u64, den: u64) -> (r: u64)
    requires
        speed <= SPEED_LIMIT,
        max <= SPEED_LIMIT,
        num <= GROWTH_LIMIT,
        den >= 1,
    ensures
        r == ramped(speed, max, num, den),
        num >= den ==> r >= speed,
        speed <= max ==> r <= max,
{
    if speed < max {
        assert(speed as int * num as int <= SPEED_LIMIT as int * GROWTH_LIMIT as int) by (nonlinear_arith)
            requires speed <= SPEED_LIMIT, num <= GROWTH_LIMIT;
        let grown = speed * num / den;
        assert(num >= den ==> grown >= speed) by (nonlinear_arith)
            requires grown == (speed as int * num as int) / den as int, den >= 1;
        if grown > max { max } else { grown }
    } else {
        speed
    }
}

/// What an active control of a player does.
#[derive(Clone, Copy, Debug, PartialEq, Eq, Structural)]
pub enum Effect {
    /// Move along a direction.
    Move(Point),
    Nothing,
}

pub open spec fn effect_ok(e: Effect) -> bool {
    match e {
        Effect::Move(d) => dir_ok(d.x, d.y),
        Effect::Nothing => true,
    }
}

/// The active controls of one tick: within limits in number and size.
pub open spec fn effects_ok(es: Seq<Effect>) -> bool {
    es.len() <= MAX_ACTIVE_CONTROLS && forall|i: int| 0 <= i < es.len() ==> effect_ok(#[trigger] es[i])
}

pub open spec fn move_x(e: Effect) -> int {
    match e {
        Effect::Move(d) => d.x as int,
        Effect::Nothing => 0,
    }
}

pub open spec fn move_y(e: Effect) -> int {
    match e {
        Effect::Move(d) => d.y as int,
        Effect::Nothing => 0,
    }
}

/// The sum of the first `k` move directions, horizontal component.
pub open spec fn sum_x(es: Seq<Effect>, k: int) -> int
    decreases k,
{
    if k <= 0 { 0 } else { sum_x(es, k - 1) + move_x(es[k - 1]) }
}

/// The sum of the first `k` move directions, vertical component.
pub open spec fn sum_y(es: Seq<Effect>, k: int) -> int
    decreases k,
{
    if k <= 0 { 0 } else { sum_y(es, k - 1) + move_y(es[k - 1]) }
}

/// A paddle: the player that owns it, its speed, and the box its center keeps to.
#[derive(Clone, Copy, Debug, PartialEq, Eq, Structural)]
pub struct Paddle {
    pub owner: usize,
    pub speed: u64,
    pub min: Point,
    pub max: Point,
}

pub open spec fn paddle_ok(p: Paddle) -> bool {
    &&& point_ok(p.min)
    &&& point_ok(p.max)
    &&& p.min.x <= p.max.x
    &&& p.min.y <= p.max.y
    &&& p.speed <= SPEED_LIMIT
}

pub open spec fn within(p: Point, lo: Point, hi: Point) -> bool {
    lo.x <= p.x <= hi.x && lo.y <= p.y <= hi.y
}

/// Where the paddle's center goes in one tick under the active controls `es`:
/// nowhere when the move directions sum to zero; otherwise one step along the
/// sum at the paddle's speed, clamped into the paddle's box.
pub open spec fn paddle_target(pos: Point, p: Paddle, es: Seq<Effect>, rate: u64, dx: int, dy: int) -> bool {
    let sx = sum_x(es, es.len() as int);
    let sy = sum_y(es, es.len() as int);
    let n = sx * sx + sy * sy;
    &&& is_step(sx, n, p.speed as int, rate as int, dx)
    &&& is_step(sy, n, p.speed as int, rate as int, dy)
}

pub open spec fn paddle_moved(pos: Point, p: Paddle, es: Seq<Effect>, rate: u64, r: Point) -> bool {
    let sx = sum_x(es, es.len() as int);
    let sy = sum_y(es, es.len() as int);
    if sx == 0 && sy == 0 {
        r == pos
    } else {
        exists|dx: int, dy: int|
            #![trigger paddle_target(pos, p, es, rate, dx, dy)]
            paddle_target(pos, p, es, rate, dx, dy)
            && r.x == clamp_i(pos.x + dx, p.min.x as int, p.max.x as int)
            && r.y == clamp_i(pos.y + dy, p.min.y as int, p.max.y as int)
    }
}

proof fn lemma_sum_bounds(es: Seq<Effect>, k: int)
    requires
        effects_ok(es),
        0 <= k <= es.len(),
    ensures
        abs_i(sum_x(es, k)) <= k * DIR_LIMIT,
        abs_i(sum_y(es, k)) <= k * DIR_LIMIT,
    decreases k,
{
    if k > 0 {
        lemma_sum_bounds(es, k - 1);
        assert(effect_ok(es[k - 1]));
    }
}

/// Moves a paddle's center one tick under the active controls `es`.
pub fn move_paddle(pos: Point, p: &Paddle, es: &Vec<Effect>, rate: u64) -> (r: Point)
    requires
        paddle_ok(*p),
        point_ok(pos),
        effects_ok(es@),
        1 <= rate <= RATE_LIMIT,
    ensures
        paddle_moved(pos, *p, es@, rate, r),
        (r == pos) || within(r, p.min, p.max),
{
    let mut sx: i64 = 0;
    let mut sy: i64 = 0;
    let mut i: usize = 0;
    while i < es.len()
        invariant
            effects_ok(es@),
            0 <= i <= es.len(),
            sx == sum_x(es@, i as int),
            sy == sum_y(es@, i as int),
        decreases es.len() - i,
    {
        proof {
            lemma_sum_bounds(es@, i as int);
            assert(effect_ok(es@[i as int]));
        }
        match es[i] {
            Effect::Move(d) => {
                sx = sx + d.x;
                sy = sy + d.y;
            },
            Effect::Nothing => {},
        }
        i = i + 1;
    }
    proof {
        lemma_sum_bounds(es@, es@.len() as int);
    }
    if sx == 0 && sy == 0 {
        return pos;
    }
    let ax: i128 = sx as i128;
    let ay: i128 = sy as i128;
    assert(ax * ax <= 0x1000_0000_0000_0000 && ay * ay <= 0x1000_0000_0000_0000) by (nonlinear_arith)
        requires -0x4000_0000 <= ax <= 0x4000_0000, -0x4000_0000 <= ay <= 0x4000_0000;
    assert(ax * ax >= 0 && ay * ay >= 0) by (nonlinear_arith);
    assert(ax * ax + ay * ay > 0) by (nonlinear_arith)
        requires ax != 0 || ay != 0;
    let n: u128 = (ax * ax + ay * ay) as u128;
    assert((ax * ax) * (p.speed as int * p.speed as int) < 0x4000_0000_0000_0000_0000_0000_0000_0000
        && (ay * ay) * (p.speed as int * p.speed as int) < 0x4000_0000_0000_0000_0000_0000_0000_0000) by (nonlinear_arith)
        requires
            ax * ax <= 0x1000_0000_0000_0000,
            ay * ay <= 0x1000_0000_0000_0000,
            0 <= p.speed <= 0x1_0000_0000,
    {
        assert(p.speed as int * p.speed as int <= 0x1_0000_0000_0000_0000);
    }
    let dx = step_component(sx, n, p.speed, rate);
    let dy = step_component(sy, n, p.speed, rate);
    assert(paddle_target(pos, *p, es@, rate, dx as int, dy as int));
    Point {
        x: clamp(pos.x + dx, p.min.x, p.max.x),
        y: clamp(pos.y + dy, p.min.y, p.max.y),
    }
}

} // verus!
