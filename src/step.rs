//! The fixed-timestep simulation step: integrator, paddle controller,
//! collision engine, event dispatcher and speed normalizer.

use vstd::prelude::*;
use crate::collision::{
    destroyed_indices, full_pass, kept, lemma_spawn_certain_or_never, pass_start, spawned_balls, Pass,
};
use crate::geometry::{clamp, clamp_i, is_step, step_component, Point};
use crate::motion::{effects_ok, magnitude, move_paddle, paddle_moved, within, Effect, Velocity};
use crate::random::draw_below;
use crate::world::{
    box_hi_x, box_hi_y, box_lo_x, box_lo_y, entity_ok, is_ball, Entity, Parameters, Role, World,
    PER_MILLION,
};

verus! {

/// One tick of motion for a ball of velocity `v`: `(dx, dy)`.
pub open spec fn ball_step(p: Parameters, v: Velocity, dx: int, dy: int) -> bool {
    let n = v.x * v.x + v.y * v.y;
    &&& is_step(v.x as int, n, v.speed as int, p.tick_rate as int, dx)
    &&& is_step(v.y as int, n, v.speed as int, p.tick_rate as int, dy)
}

/// The integrator on one entity: a ball moves one tick along its velocity and
/// its center is clamped into the ball box; other entities stay.
pub open spec fn integrated(p: Parameters, e: Entity, f: Entity) -> bool {
    match e.role {
        Role::Ball(v) => {
            &&& f.role == e.role
            &&& f.size == e.size
            &&& exists|dx: int, dy: int|
                #![trigger ball_step(p, v, dx, dy)]
                ball_step(p, v, dx, dy)
                && f.position.x == clamp_i(e.position.x + dx, box_lo_x(p), box_hi_x(p))
                && f.position.y == clamp_i(e.position.y + dy, box_lo_y(p), box_hi_y(p))
        },
        _ => f == e,
    }
}

/// The paddle controller on one entity: a paddle moves under the active
/// controls of its owner; other entities stay.
pub open spec fn paddle_advanced(p: Parameters, inputs: Seq<Seq<Effect>>, e: Entity, f: Entity) -> bool {
    match e.role {
        Role::Paddle(q) => {
            &&& f.role == e.role
            &&& f.size == e.size
            &&& paddle_moved(e.position, q, inputs[q.owner as int], p.tick_rate, f.position)
        },
        _ => f == e,
    }
}

/// The speed normalizer on one entity: a ball with a non-zero direction takes
/// the shared speed; other entities stay.
pub open spec fn normalized(speed: u64, e: Entity) -> Entity {
    match e.role {
        Role::Ball(v) => if v.x != 0 || v.y != 0 {
            Entity { role: Role::Ball(Velocity { speed, ..v }), ..e }
        } else {
            e
        },
        _ => e,
    }
}

/// What one tick reports to its surroundings.
pub struct TickReport {
    /// A collision occurred: play the collision sound once.
    pub sound: bool,
    /// The indices, before the tick, of the entities destroyed, ascending.
    pub removed: Vec<usize>,
    /// How many balls were spawned; they stand at the end of the store.
    pub spawned: usize,
}

/// The effects of each player's active controls, as sequences.
pub open spec fn input_views(inputs: Seq<Vec<Effect>>) -> Seq<Seq<Effect>> {
    inputs.map_values(|es: Vec<Effect>| es@)
}

/// The integrator and then the paddle controller on one entity.
pub open spec fn advanced(p: Parameters, inputs: Seq<Seq<Effect>>, e: Entity, f: Entity) -> bool {
    match e.role {
        Role::Ball(_) => integrated(p, e, f),
        Role::Paddle(_) => paddle_advanced(p, inputs, e, f),
        _ => f == e,
    }
}

/// The collision pass's starting state for world `w` with its entities
/// moved to `mid`.
pub open spec fn pass_from(w: World, mid: Seq<Entity>) -> Pass {
    Pass {
        entities: mid,
        removed: Seq::new(mid.len(), |i: int| false),
        scores: w.scores@,
        speed: w.ball_speed,
        collided: w.collided,
        hits: Seq::empty(),
    }
}

/// One tick from `w` to `v` under `inputs`, reporting `r`: the entities
/// move (`mid`), the collision pass runs, the destroyed entities go, each
/// brick hit duplicates the ball when its draw (`draws`) is below the
/// chance, the collision marker is reported and cleared, and every ball
/// takes the shared speed.
pub open spec fn tick_outcome(
    w: World,
    inputs: Seq<Seq<Effect>>,
    mid: Seq<Entity>,
    draws: Seq<u32>,
    v: World,
    r: TickReport,
) -> bool {
    let p = w.parameters;
    let n = w.entities@.len() as int;
    let s = full_pass(p, pass_from(w, mid), n);
    let born = spawned_balls(p, s.hits, draws, s.hits.len() as int);
    &&& mid.len() == n
    &&& forall|i: int| 0 <= i < n ==> advanced(p, inputs, w.entities@[i], #[trigger] mid[i])
    &&& draws.len() == s.hits.len()
    &&& forall|m: int| 0 <= m < draws.len() ==> #[trigger] draws[m] < PER_MILLION
    &&& v.parameters == p
    &&& v.entities@ == (kept(s.entities, s.removed, n) + born).map_values(|e: Entity| normalized(s.speed, e))
    &&& v.scores@ == s.scores
    &&& v.ball_speed == s.speed
    &&& !v.collided
    &&& r.sound == s.collided
    &&& r.removed@ == destroyed_indices(s.removed, n)
    &&& r.spawned == born.len()
}

impl World {
    /// Advances every ball by its velocity over one tick, then clamps its
    /// center into the arena grown by the padding.
    pub fn integrate(&mut self)
        requires
            old(self).wf(),
        ensures
            final(self).wf(),
            final(self).parameters == old(self).parameters,
            final(self).scores@ == old(self).scores@,
            final(self).ball_speed == old(self).ball_speed,
            final(self).collided == old(self).collided,
            final(self).entities@.len() == old(self).entities@.len(),
            forall|i: int|
                0 <= i < old(self).entities@.len() ==> integrated(
                    old(self).parameters,
                    old(self).entities@[i],
                    #[trigger] final(self).entities@[i],
                ),
    {
        let ghost start = self.entities@;
        let p = self.parameters;
        let lo_x = p.arena_min.x - p.ball.padding_for_bounds;
        let hi_x = p.arena_max.x + p.ball.padding_for_bounds;
        let lo_y = p.arena_min.y - p.ball.padding_for_bounds;
        let hi_y = p.arena_max.y + p.ball.padding_for_bounds;
        let mut i: usize = 0;
        while i < self.entities.len()
            invariant
                self.wf(),
                self.parameters == p,
                self.scores@ == old(self).scores@,
                self.ball_speed == old(self).ball_speed,
                self.collided == old(self).collided,
                start == old(self).entities@,
                lo_x == box_lo_x(p),
                hi_x == box_hi_x(p),
                lo_y == box_lo_y(p),
                hi_y == box_hi_y(p),
                self.entities@.len() == start.len(),
                0 <= i <= start.len(),
                forall|k: int| 0 <= k < i ==> integrated(p, start[k], #[trigger] self.entities@[k]),
                forall|k: int| i <= k < start.len() ==> #[trigger] self.entities@[k] == start[k],
            decreases start.len() - i,
        {
            let e = self.entities[i];
            assert(entity_ok(p, self.scores.len() as int, e));
            match e.role {
                Role::Ball(v) => {
                    let ax = v.x as i128;
                    let ay = v.y as i128;
                    assert(ax * ax <= 0x1_0000_0000_0000 && ay * ay <= 0x1_0000_0000_0000) by (nonlinear_arith)
                        requires -0x100_0000 <= ax <= 0x100_0000, -0x100_0000 <= ay <= 0x100_0000;
                    assert(ax * ax >= 0 && ay * ay >= 0) by (nonlinear_arith);
                    assert(ax * ax + ay * ay > 0) by (nonlinear_arith)
                        requires ax != 0 || ay != 0;
                    let n: u128 = (ax * ax + ay * ay) as u128;
                    assert((ax * ax) * (v.speed as int * v.speed as int) < 0x4000_0000_0000_0000_0000_0000_0000_0000
                        && (ay * ay) * (v.speed as int * v.speed as int) < 0x4000_0000_0000_0000_0000_0000_0000_0000) by (nonlinear_arith)
                        requires
                            ax * ax <= 0x1_0000_0000_0000,
                            ay * ay <= 0x1_0000_0000_0000,
                            0 <= v.speed <= 0x1_0000_0000,
                    {
                        assert(v.speed as int * v.speed as int <= 0x1_0000_0000_0000_0000);
                    }
                    let dx = step_component(v.x, n, v.speed, p.tick_rate);
                    let dy = step_component(v.y, n, v.speed, p.tick_rate);
                    assert(ball_step(p, v, dx as int, dy as int));
                    let f = Entity {
                        position: Point {
                            x: clamp(e.position.x + dx, lo_x, hi_x),
                            y: clamp(e.position.y + dy, lo_y, hi_y),
                        },
                        ..e
                    };
                    assert(integrated(p, e, f));
                    self.entities.set(i, f);
                },
                _ => {},
            }
            i = i + 1;
        }
    }

    /// Moves every paddle under the active controls of its owner:
    /// `inputs[k]` holds the effects of player `k`'s active controls.
    pub fn move_paddles(&mut self, inputs: &Vec<Vec<Effect>>)
        requires
            old(self).wf(),
            inputs@.len() == old(self).scores@.len(),
            forall|k: int| 0 <= k < inputs@.len() ==> effects_ok(#[trigger] inputs@[k]@),
        ensures
            final(self).wf(),
            final(self).parameters == old(self).parameters,
            final(self).scores@ == old(self).scores@,
            final(self).ball_speed == old(self).ball_speed,
            final(self).collided == old(self).collided,
            final(self).entities@.len() == old(self).entities@.len(),
            forall|i: int|
                0 <= i < old(self).entities@.len() ==> paddle_advanced(
                    old(self).parameters,
                    input_views(inputs@),
                    old(self).entities@[i],
                    #[trigger] final(self).entities@[i],
                ),
    {
        let ghost start = self.entities@;
        let ghost views = input_views(inputs@);
        let p = self.parameters;
        let mut i: usize = 0;
        while i < self.entities.len()
            invariant
                self.wf(),
                self.parameters == p,
                self.scores@ == old(self).scores@,
                self.ball_speed == old(self).ball_speed,
                self.collided == old(self).collided,
                start == old(self).entities@,
                views == input_views(inputs@),
                inputs@.len() == self.scores@.len(),
                forall|k: int| 0 <= k < inputs@.len() ==> effects_ok(#[trigger] inputs@[k]@),
                self.entities@.len() == start.len(),
                0 <= i <= start.len(),
                forall|k: int| 0 <= k < i ==> paddle_advanced(p, views, start[k], #[trigger] self.entities@[k]),
                forall|k: int| i <= k < start.len() ==> #[trigger] self.entities@[k] == start[k],
            decreases start.len() - i,
        {
            let e = self.entities[i];
            assert(entity_ok(p, self.scores.len() as int, e));
            match e.role {
                Role::Paddle(q) => {
                    let es = &inputs[q.owner];
                    assert(views[q.owner as int] == es@);
                    let pos = move_paddle(e.position, &q, es, p.tick_rate);
                    let f = Entity { position: pos, ..e };
                    self.entities.set(i, f);
                },
                _ => {},
            }
            i = i + 1;
        }
    }

    /// Gives every ball the shared speed, keeping its direction; a ball with a
    /// zero direction is left as it is.
    pub fn normalize_speeds(&mut self)
        requires
            old(self).wf(),
        ensures
            final(self).wf(),
            final(self).parameters == old(self).parameters,
            final(self).scores@ == old(self).scores@,
            final(self).ball_speed == old(self).ball_speed,
            final(self).collided == old(self).collided,
            final(self).entities@ == old(self).entities@.map_values(
                |e: Entity| normalized(old(self).ball_speed, e),
            ),
            forall|i: int|
                0 <= i < final(self).entities@.len() && is_ball(#[trigger] final(self).entities@[i].role)
                    ==> magnitude(final(self).entities@[i].role->Ball_0) == final(self).ball_speed,
    {
        let ghost start = self.entities@;
        let p = self.parameters;
        let speed = self.ball_speed;
        let mut i: usize = 0;
        while i < self.entities.len()
            invariant
                self.wf(),
                self.parameters == p,
                self.scores@ == old(self).scores@,
                self.ball_speed == speed,
                speed == old(self).ball_speed,
                self.collided == old(self).collided,
                start == old(self).entities@,
                self.entities@.len() == start.len(),
                0 <= i <= start.len(),
                forall|k: int| 0 <= k < i ==> #[trigger] self.entities@[k] == normalized(speed, start[k]),
                forall|k: int| i <= k < start.len() ==> #[trigger] self.entities@[k] == start[k],
            decreases start.len() - i,
        {
            let e = self.entities[i];
            assert(entity_ok(p, self.scores.len() as int, e));
            match e.role {
                Role::Ball(v) => {
                    if v.x != 0 || v.y != 0 {
                        let f = Entity { role: Role::Ball(Velocity { speed, ..v }), ..e };
                        self.entities.set(i, f);
                    }
                },
                _ => {},
            }
            i = i + 1;
        }
        assert(self.entities@ =~= start.map_values(|e: Entity| normalized(speed, e)));
        assert forall|i: int|
            0 <= i < self.entities@.len() && is_ball(#[trigger] self.entities@[i].role)
                implies magnitude(self.entities@[i].role->Ball_0) == self.ball_speed by {
            assert(entity_ok(p, self.scores.len() as int, start[i]));
        }
    }

    /// One fixed time step: the integrator, the paddle controller (`inputs[k]`
    /// holds the effects of player `k`'s active controls), the collision
    /// engine with deferred removal and duplication, the event dispatcher and
    /// the speed normalizer, in that order.
    pub fn tick(&mut self, inputs: &Vec<Vec<Effect>>) -> (r: TickReport)
        requires
            old(self).wf(),
            inputs@.len() == old(self).scores@.len(),
            forall|k: int| 0 <= k < inputs@.len() ==> effects_ok(#[trigger] inputs@[k]@),
        ensures
            final(self).wf(),
            exists|mid: Seq<Entity>, draws: Seq<u32>|
                #[trigger] tick_outcome(
                    *old(self),
                    input_views(inputs@),
                    mid,
                    draws,
                    *final(self),
                    r,
                ),
            forall|i: int|
                0 <= i < final(self).entities@.len() && is_ball(#[trigger] final(self).entities@[i].role)
                    ==> magnitude(final(self).entities@[i].role->Ball_0) == final(self).ball_speed,
            old(self).ball_speed <= final(self).ball_speed <= final(self).parameters.ball.max_speed,
            forall|i: int|
                0 <= i < final(self).entities@.len() && (#[trigger] final(self).entities@[i]).role is Paddle
                    ==> within(
                    final(self).entities@[i].position,
                    final(self).entities@[i].role->Paddle_0.min,
                    final(self).entities@[i].role->Paddle_0.max,
                ),
            final(self).scores@.len() == old(self).scores@.len(),
            forall|k: int| 0 <= k < old(self).scores@.len() ==> old(self).scores@[k] <= #[trigger] final(self).scores@[k],
            final(self).entities@.len() == old(self).entities@.len() - r.removed@.len() + r.spawned,
            final(self).parameters.ball.duplicate_per_million == PER_MILLION ==> r.spawned == r.removed@.len(),
            final(self).parameters.ball.duplicate_per_million == 0 ==> r.spawned == 0,
            !final(self).collided,
    {
        let ghost w0 = *self;
        let ghost views = input_views(inputs@);
        let p = self.parameters;
        self.integrate();
        let ghost w1 = self.entities@;
        self.move_paddles(inputs);
        let ghost mid = self.entities@;
        assert forall|i: int| 0 <= i < mid.len() implies advanced(p, views, w0.entities@[i], #[trigger] mid[i]) by {
            assert(integrated(p, w0.entities@[i], w1[i]));
            assert(paddle_advanced(p, views, w1[i], mid[i]));
        }
        assert(pass_start(*self) == pass_from(w0, mid));
        let (removed, hits) = self.collide();
        let ghost s = full_pass(p, pass_from(w0, mid), mid.len() as int);
        let mut draws: Vec<u32> = Vec::new();
        let mut m: usize = 0;
        while m < hits.len()
            invariant
                0 <= m <= hits@.len(),
                draws@.len() == m,
                forall|k: int| 0 <= k < m ==> #[trigger] draws@[k] < PER_MILLION,
            decreases hits@.len() - m,
        {
            let d = draw_below(PER_MILLION);
            draws.push(d);
            m = m + 1;
        }
        let gone = self.remove_destroyed(&removed);
        let spawned = self.spawn_duplicates(&hits, &draws);
        let sound = self.dispatch();
        self.normalize_speeds();
        proof {
            lemma_spawn_certain_or_never(p, hits@, draws@, hits@.len() as int);
            let born = spawned_balls(p, hits@, draws@, hits@.len() as int);
            assert forall|i: int|
                0 <= i < self.entities@.len() && (#[trigger] self.entities@[i]).role is Paddle
                    implies within(
                    self.entities@[i].position,
                    self.entities@[i].role->Paddle_0.min,
                    self.entities@[i].role->Paddle_0.max,
                ) by {
                assert(entity_ok(p, self.scores@.len() as int, self.entities@[i]));
            }
        }
        let r = TickReport { sound, removed: gone, spawned };
        assert(tick_outcome(w0, views, mid, draws@, *self, r));
        r
    }

    /// The event dispatcher: reports whether a collision occurred this tick
    /// (one side effect however many collisions there were), and clears the
    /// marker.
    pub fn dispatch(&mut self) -> (sound: bool)
        requires
            old(self).wf(),
        ensures
            sound == old(self).collided,
            !final(self).collided,
            final(self).wf(),
            final(self).parameters == old(self).parameters,
            final(self).scores@ == old(self).scores@,
            final(self).ball_speed == old(self).ball_speed,
            final(self).entities@ == old(self).entities@,
    {
        let sound = self.collided;
        self.collided = false;
        sound
    }
}

} // verus!
