//! The entity store: entities, parameters, the simulation state and its
//! well-formedness, and setting a world up.

use vstd::prelude::*;
use crate::geometry::{point_ok, size_ok, Point, Size, COORD_LIMIT, DIR_LIMIT, RATE_LIMIT, SPEED_LIMIT};
use crate::motion::{dir_ok, paddle_ok, velocity_ok, within, Paddle, Velocity, GROWTH_LIMIT};

verus! {

/// Duplication probabilities are given in parts per million.
pub const PER_MILLION: u32 = 1_000_000;

/// A wall: the player credited when a ball strikes it, if any.
#[derive(Clone, Copy, Debug, PartialEq, Eq, Structural)]
pub struct Wall {
    pub scoring_player: Option<usize>,
}

/// What an entity is, and how collisions treat it.
#[derive(Clone, Copy, Debug, PartialEq, Eq, Structural)]
pub enum Role {
    Ball(Velocity),
    Paddle(Paddle),
    Wall(Wall),
    Brick,
}

/// An entity of the store: its center, its half-extents and its role.
#[derive(Clone, Copy, Debug, PartialEq, Eq, Structural)]
pub struct Entity {
    pub position: Point,
    pub size: Size,
    pub role: Role,
}

/// The ball's parameters.
#[derive(Clone, Copy, Debug, PartialEq, Eq, Structural)]
pub struct ParametersBall {
    /// Where the first ball and every duplicate start.
    pub starting_position: Point,
    pub starting_direction: Point,
    pub size: Size,
    /// The initial shared ball speed, in units per second.
    pub speed: u64,
    pub max_speed: u64,
    /// The speed ramp multiplies by `growth_num / growth_den`.
    pub growth_num: u64,
    pub growth_den: u64,
    /// The chance that a brick collision duplicates the ball, per million.
    pub duplicate_per_million: u32,
    /// How far outside the arena a ball's center may go.
    pub padding_for_bounds: i64,
}

/// The arena and the simulation's constants.
#[derive(Clone, Copy, Debug, PartialEq, Eq, Structural)]
pub struct Parameters {
    pub ball: ParametersBall,
    pub arena_min: Point,
    pub arena_max: Point,
    /// Ticks per second.
    pub tick_rate: u64,
}

/// The simulation state: the entity store, the scores (one per player), the
/// shared ball speed and the collision marker of the current tick.
pub struct World {
    pub parameters: Parameters,
    pub entities: Vec<Entity>,
    pub scores: Vec<u64>,
    pub ball_speed: u64,
    pub collided: bool,
}

pub open spec fn is_ball(r: Role) -> bool {
    r is Ball
}

pub open spec fn is_brick(r: Role) -> bool {
    r is Brick
}

pub open spec fn size_positive(s: Size) -> bool {
    size_ok(s) && s.half_width >= 1 && s.half_height >= 1
}

pub open spec fn box_lo_x(p: Parameters) -> int {
    p.arena_min.x - p.ball.padding_for_bounds
}

pub open spec fn box_hi_x(p: Parameters) -> int {
    p.arena_max.x + p.ball.padding_for_bounds
}

pub open spec fn box_lo_y(p: Parameters) -> int {
    p.arena_min.y - p.ball.padding_for_bounds
}

pub open spec fn box_hi_y(p: Parameters) -> int {
    p.arena_max.y + p.ball.padding_for_bounds
}

/// The box that a ball's center is kept in: the arena grown by the padding.
pub open spec fn in_ball_box(p: Parameters, q: Point) -> bool {
    box_lo_x(p) <= q.x <= box_hi_x(p) && box_lo_y(p) <= q.y <= box_hi_y(p)
}

pub open spec fn parameters_ok(p: Parameters) -> bool {
    &&& p.ball.padding_for_bounds >= 0
    &&& p.arena_min.x <= p.arena_max.x
    &&& p.arena_min.y <= p.arena_max.y
    &&& -COORD_LIMIT <= box_lo_x(p) && box_hi_x(p) <= COORD_LIMIT
    &&& -COORD_LIMIT <= box_lo_y(p) && box_hi_y(p) <= COORD_LIMIT
    &&& in_ball_box(p, p.ball.starting_position)
    &&& size_positive(p.ball.size)
    &&& dir_ok(p.ball.starting_direction.x, p.ball.starting_direction.y)
    &&& (p.ball.starting_direction.x != 0 || p.ball.starting_direction.y != 0)
    &&& 1 <= p.ball.speed <= p.ball.max_speed <= SPEED_LIMIT
    &&& 1 <= p.ball.growth_den <= p.ball.growth_num <= GROWTH_LIMIT
    &&& p.ball.duplicate_per_million <= PER_MILLION
    &&& 1 <= p.tick_rate <= RATE_LIMIT
}

pub open spec fn entity_ok(p: Parameters, players: int, e: Entity) -> bool {
    &&& point_ok(e.position)
    &&& size_positive(e.size)
    &&& match e.role {
        Role::Ball(v) => velocity_ok(v) && in_ball_box(p, e.position),
        Role::Paddle(q) => paddle_ok(q) && within(e.position, q.min, q.max) && q.owner < players,
        Role::Wall(w) => match w.scoring_player {
            Some(k) => k < players,
            None => true,
        },
        Role::Brick => true,
    }
}

pub open spec fn entities_ok(p: Parameters, players: int, es: Seq<Entity>) -> bool {
    forall|i: int| 0 <= i < es.len() ==> entity_ok(p, players, #[trigger] es[i])
}

impl World {
    /// The world is well formed: valid parameters, at least one player, valid
    /// entities and a shared speed between the initial and the maximal speed.
    pub open spec fn wf(&self) -> bool {
        &&& parameters_ok(self.parameters)
        &&& self.scores.len() >= 1
        &&& entities_ok(self.parameters, self.scores.len() as int, self.entities@)
        &&& self.parameters.ball.speed <= self.ball_speed <= self.parameters.ball.max_speed
    }
}

/// Why a world could not be set up.
#[derive(Clone, Copy, Debug, PartialEq, Eq, Structural)]
pub enum ConfigError {
    /// The parameters are out of range or inconsistent.
    Parameters,
    /// There is no player, so no score.
    NoPlayers,
    /// The entity at this index is malformed for its role.
    Entity(usize),
}

/// Checks a speed, an extent or a coordinate against its limits.
fn in_range(v: i128, lo: i128, hi: i128) -> (r: bool)
    ensures
        r == (lo <= v <= hi),
{
    lo <= v && v <= hi
}

fn check_point(q: Point) -> (r: bool)
    ensures
        r == point_ok(q),
{
    in_range(q.x as i128, -(COORD_LIMIT as i128), COORD_LIMIT as i128)
        && in_range(q.y as i128, -(COORD_LIMIT as i128), COORD_LIMIT as i128)
}

fn check_size(s: Size) -> (r: bool)
    ensures
        r == size_positive(s),
{
    in_range(s.half_width as i128, 1, COORD_LIMIT as i128)
        && in_range(s.half_height as i128, 1, COORD_LIMIT as i128)
}

fn check_direction(x: i64, y: i64) -> (r: bool)
    ensures
        r == (dir_ok(x, y) && (x != 0 || y != 0)),
{
    in_range(x as i128, -(DIR_LIMIT as i128), DIR_LIMIT as i128)
        && in_range(y as i128, -(DIR_LIMIT as i128), DIR_LIMIT as i128)
        && (x != 0 || y != 0)
}

/// Checks the parameters.
pub fn check_parameters(p: &Parameters) -> (r: bool)
    ensures
        r == parameters_ok(*p),
{
    let b = p.ball;
    let pad = b.padding_for_bounds as i128;
    let lim = COORD_LIMIT as i128;
    pad >= 0
        && p.arena_min.x <= p.arena_max.x
        && p.arena_min.y <= p.arena_max.y
        && in_range(p.arena_min.x as i128 - pad, -lim, lim)
        && in_range(p.arena_max.x as i128 + pad, -lim, lim)
        && in_range(p.arena_min.y as i128 - pad, -lim, lim)
        && in_range(p.arena_max.y as i128 + pad, -lim, lim)
        && in_range(b.starting_position.x as i128, p.arena_min.x as i128 - pad, p.arena_max.x as i128 + pad)
        && in_range(b.starting_position.y as i128, p.arena_min.y as i128 - pad, p.arena_max.y as i128 + pad)
        && check_size(b.size)
        && check_direction(b.starting_direction.x, b.starting_direction.y)
        && 1 <= b.speed && b.speed <= b.max_speed && b.max_speed <= SPEED_LIMIT
        && 1 <= b.growth_den && b.growth_den <= b.growth_num && b.growth_num <= GROWTH_LIMIT
        && b.duplicate_per_million <= PER_MILLION
        && 1 <= p.tick_rate && p.tick_rate <= RATE_LIMIT
}

/// Checks one entity against the parameters and the number of players.
pub fn check_entity(p: &Parameters, players: usize, e: &Entity) -> (r: bool)
    requires
        parameters_ok(*p),
    ensures
        r == entity_ok(*p, players as int, *e),
{
    if !check_point(e.position) || !check_size(e.size) {
        return false;
    }
    match e.role {
        Role::Ball(v) => {
            let pad = p.ball.padding_for_bounds;
            check_direction(v.x, v.y) && v.speed <= SPEED_LIMIT
                && p.arena_min.x - pad <= e.position.x && e.position.x <= p.arena_max.x + pad
                && p.arena_min.y - pad <= e.position.y && e.position.y <= p.arena_max.y + pad
        },
        Role::Paddle(q) => {
            check_point(q.min) && check_point(q.max) && q.min.x <= q.max.x && q.min.y <= q.max.y
                && q.speed <= SPEED_LIMIT && q.min.x <= e.position.x && e.position.x <= q.max.x
                && q.min.y <= e.position.y && e.position.y <= q.max.y && q.owner < players
        },
        Role::Wall(w) => match w.scoring_player {
            Some(k) => k < players,
            None => true,
        },
        Role::Brick => true,
    }
}

/// The first malformed entity is at index `i`.
pub open spec fn first_bad_entity(p: Parameters, players: int, es: Seq<Entity>, i: int) -> bool {
    &&& 0 <= i < es.len()
    &&& !entity_ok(p, players, es[i])
    &&& forall|k: int| 0 <= k < i ==> entity_ok(p, players, #[trigger] es[k])
}

impl ParametersBall {
    /// The velocity of the first ball: the starting direction at the initial speed.
    pub fn starting_velocity(&self) -> (r: Velocity)
        ensures
            r == (Velocity { x: self.starting_direction.x, y: self.starting_direction.y, speed: self.speed }),
    {
        Velocity { x: self.starting_direction.x, y: self.starting_direction.y, speed: self.speed }
    }
}

impl World {
    /// Sets up a world for `players` players, every score at zero, the
    /// shared speed at its initial value and no collision marked. Fails on
    /// invalid parameters, then on zero players, then at the first malformed
    /// entity.
    pub fn new(parameters: Parameters, entities: Vec<Entity>, players: usize) -> (r: Result<World, ConfigError>)
        ensures
            !parameters_ok(parameters) <==> r == Err::<World, ConfigError>(ConfigError::Parameters),
            parameters_ok(parameters) && players == 0 <==> r == Err::<World, ConfigError>(ConfigError::NoPlayers),
            forall|i: int| #![trigger first_bad_entity(parameters, players as int, entities@, i)]
                parameters_ok(parameters) && players >= 1 && first_bad_entity(parameters, players as int, entities@, i)
                    ==> r == Err::<World, ConfigError>(ConfigError::Entity(i as usize)),
            r matches Err(ConfigError::Entity(k)) ==> parameters_ok(parameters) && players >= 1
                && first_bad_entity(parameters, players as int, entities@, k as int),
            r is Ok <==> (parameters_ok(parameters) && players >= 1 && entities_ok(parameters, players as int, entities@)),
            r matches Ok(w) ==> {
                &&& w.wf()
                &&& w.parameters == parameters
                &&& w.entities@ == entities@
                &&& w.scores@ == Seq::new(players as nat, |k: int| 0u64)
                &&& w.ball_speed == parameters.ball.speed
                &&& !w.collided
            },
    {
        if !check_parameters(&parameters) {
            return Err(ConfigError::Parameters);
        }
        if players == 0 {
            return Err(ConfigError::NoPlayers);
        }
        let mut i: usize = 0;
        while i < entities.len()
            invariant
                parameters_ok(parameters),
                players >= 1,
                0 <= i <= entities@.len(),
                forall|k: int| 0 <= k < i ==> entity_ok(parameters, players as int, #[trigger] entities@[k]),
            decreases entities@.len() - i,
        {
            if !check_entity(&parameters, players, &entities[i]) {
                proof {
                    assert(first_bad_entity(parameters, players as int, entities@, i as int));
                    assert forall|j: int| #![trigger first_bad_entity(parameters, players as int, entities@, j)]
                        first_bad_entity(parameters, players as int, entities@, j) implies j == i by {
                        if j < i {
                            assert(entity_ok(parameters, players as int, entities@[j]));
                        } else if j > i {
                            assert(entity_ok(parameters, players as int, entities@[i as int]));
                        }
                    }
                }
                return Err(ConfigError::Entity(i));
            }
            i = i + 1;
        }
        let mut scores: Vec<u64> = Vec::new();
        let mut k: usize = 0;
        while k < players
            invariant
                0 <= k <= players,
                scores@ == Seq::new(k as nat, |m: int| 0u64),
            decreases players - k,
        {
            scores.push(0);
            k = k + 1;
            assert(scores@ =~= Seq::new(k as nat, |m: int| 0u64));
        }
        proof {
            assert forall|j: int| #![trigger first_bad_entity(parameters, players as int, entities@, j)]
                !first_bad_entity(parameters, players as int, entities@, j) by {
                if 0 <= j < entities@.len() {
                    assert(entity_ok(parameters, players as int, entities@[j]));
                }
            }
        }
        Ok(World { parameters, entities, scores, ball_speed: parameters.ball.speed, collided: false })
    }
}

} // verus!
