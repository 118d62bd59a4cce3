//! The collision engine: every ball against every collider, with deferred
//! removal of destroyed bricks and duplication of balls.

use vstd::prelude::*;
use crate::geometry::{classify, classify_spec, Side};
use crate::motion::{ramp_speed, ramped, reflect, reflect_spec, velocity_ok, Velocity};
use crate::world::{entities_ok, entity_ok, is_ball, is_brick, parameters_ok, Entity, Parameters, Role, Wall, World, PER_MILLION};

verus! {

/// The state that the collision pass works on.
pub ghost struct Pass {
    pub entities: Seq<Entity>,
    /// Which entities have been destroyed in this pass.
    pub removed: Seq<bool>,
    pub scores: Seq<u64>,
    pub speed: u64,
    pub collided: bool,
    /// For each brick hit, in order, the ball's velocity after reflection.
    pub hits: Seq<Velocity>,
}

/// Adds one to a score, saturating at the largest value.
pub open spec fn bumped(v: u64) -> u64 {
    if v < u64::MAX { (v + 1) as u64 } else { v }
}

/// The scores after a ball strikes a collider of role `r`: a wall credits its
/// scoring player, if any; other roles change nothing.
pub open spec fn credited(scores: Seq<u64>, r: Role) -> Seq<u64> {
    match r {
        Role::Wall(w) => match w.scoring_player {
            Some(k) => if k < scores.len() { scores.update(k as int, bumped(scores[k as int])) } else { scores },
            None => scores,
        },
        _ => scores,
    }
}

/// Ball `i` tested against entity `j`. Nothing happens unless `i` is a ball,
/// `j` is a collider not yet destroyed, and the two overlap. Then the ball
/// reflects off the side of contact, a scoring wall credits its player, a
/// brick is destroyed and its hit recorded, the shared speed ramps once, and
/// the collision marker is set.
pub open spec fn contact(p: Parameters, s: Pass, i: int, j: int) -> Pass {
    let b = s.entities[i];
    let c = s.entities[j];
    match b.role {
        Role::Ball(v) => {
            if s.removed[j] || is_ball(c.role) {
                s
            } else {
                match classify_spec(b.position, b.size, c.position, c.size) {
                    None => s,
                    Some(side) => {
                        let w = reflect_spec(v, side);
                        Pass {
                            entities: s.entities.update(i, Entity { role: Role::Ball(w), ..b }),
                            removed: if is_brick(c.role) { s.removed.update(j, true) } else { s.removed },
                            scores: credited(s.scores, c.role),
                            speed: ramped(s.speed, p.ball.max_speed, p.ball.growth_num, p.ball.growth_den),
                            collided: true,
                            hits: if is_brick(c.role) { s.hits.push(w) } else { s.hits },
                        }
                    },
                }
            }
        },
        _ => s,
    }
}

/// Ball `i` tested against entities `0 .. k`, in order.
pub open spec fn ball_pass(p: Parameters, s: Pass, i: int, k: int) -> Pass
    decreases k,
{
    if k <= 0 { s } else { contact(p, ball_pass(p, s, i, k - 1), i, k - 1) }
}

/// Entities `0 .. k`, each that is a ball tested against every entity.
pub open spec fn full_pass(p: Parameters, s: Pass, k: int) -> Pass
    decreases k,
{
    if k <= 0 {
        s
    } else {
        let t = full_pass(p, s, k - 1);
        ball_pass(p, t, k - 1, t.entities.len() as int)
    }
}

/// The pass state held by a world and the pass's own two sequences.
pub open spec fn pass_of(w: World, removed: Seq<bool>, hits: Seq<Velocity>) -> Pass {
    Pass {
        entities: w.entities@,
        removed,
        scores: w.scores@,
        speed: w.ball_speed,
        collided: w.collided,
        hits,
    }
}

/// The pass's starting state for a world.
pub open spec fn pass_start(w: World) -> Pass {
    Pass {
        entities: w.entities@,
        removed: Seq::new(w.entities@.len(), |i: int| false),
        scores: w.scores@,
        speed: w.ball_speed,
        collided: w.collided,
        hits: Seq::empty(),
    }
}

/// The number of destroyed entities among the first `k`.
pub open spec fn count_removed(r: Seq<bool>, k: int) -> int
    decreases k,
{
    if k <= 0 { 0 } else { count_removed(r, k - 1) + if r[k - 1] { 1int } else { 0int } }
}

proof fn lemma_count_update(r: Seq<bool>, j: int, k: int)
    requires
        0 <= j < r.len(),
        0 <= k <= r.len(),
        !r[j],
    ensures
        count_removed(r.update(j, true), k) == count_removed(r, k) + if j < k { 1int } else { 0int },
    decreases k,
{
    if k > 0 {
        lemma_count_update(r, j, k - 1);
    }
}

proof fn lemma_count_none(r: Seq<bool>, k: int)
    requires
        0 <= k <= r.len(),
        forall|i: int| 0 <= i < r.len() ==> !r[i],
    ensures
        count_removed(r, k) == 0,
    decreases k,
{
    if k > 0 {
        lemma_count_none(r, k - 1);
    }
}

/// What the collision pass keeps true: the world's invariants, one destroyed
/// entity per brick hit, and only bricks destroyed.
pub open spec fn pass_ok(p: Parameters, s: Pass, n: int, start: Seq<Entity>) -> bool {
    &&& s.entities.len() == n
    &&& s.removed.len() == n
    &&& start.len() == n
    &&& s.scores.len() >= 1
    &&& entities_ok(p, s.scores.len() as int, s.entities)
    &&& p.ball.speed <= s.speed <= p.ball.max_speed
    &&& count_removed(s.removed, n) == s.hits.len()
    &&& forall|h: int| 0 <= h < s.hits.len() ==> velocity_ok(#[trigger] s.hits[h])
    &&& forall|j: int| 0 <= j < n && #[trigger] s.removed[j] ==> is_brick(start[j].role)
    &&& forall|j: int| 0 <= j < n ==> (#[trigger] s.entities[j]).position == start[j].position
        && s.entities[j].size == start[j].size
        && is_ball(s.entities[j].role) == is_ball(start[j].role)
        && (!is_ball(start[j].role) ==> s.entities[j] == start[j])
}

proof fn lemma_ramped(speed: u64, max: u64, num: u64, den: u64)
    requires
        1 <= den <= num,
        speed <= max,
    ensures
        speed <= ramped(speed, max, num, den) <= max,
{
    if speed < max {
        assert((speed as int * num as int) / den as int >= speed) by (nonlinear_arith)
            requires 1 <= den <= num, speed >= 0;
    }
}

proof fn lemma_contact_ok(p: Parameters, s: Pass, i: int, j: int, start: Seq<Entity>)
    requires
        parameters_ok(p),
        pass_ok(p, s, s.entities.len() as int, start),
        0 <= i < s.entities.len(),
        0 <= j < s.entities.len(),
    ensures
        pass_ok(p, contact(p, s, i, j), s.entities.len() as int, start),
        contact(p, s, i, j).scores.len() == s.scores.len(),
        s.speed <= contact(p, s, i, j).speed,
        forall|k: int| 0 <= k < s.scores.len() ==> s.scores[k] <= #[trigger] contact(p, s, i, j).scores[k],
{
    let n = s.entities.len() as int;
    let t = contact(p, s, i, j);
    let b = s.entities[i];
    let c = s.entities[j];
    assert(entity_ok(p, s.scores.len() as int, b));
    assert(entity_ok(p, s.scores.len() as int, c));
    match b.role {
        Role::Ball(v) => {
            if !s.removed[j] && !is_ball(c.role) {
                match classify_spec(b.position, b.size, c.position, c.size) {
                    Some(side) => {
                        let w = reflect_spec(v, side);
                        lemma_ramped(s.speed, p.ball.max_speed, p.ball.growth_num, p.ball.growth_den);
                        assert(velocity_ok(w));
                        assert(entities_ok(p, s.scores.len() as int, t.entities)) by {
                            assert forall|k: int| 0 <= k < n implies entity_ok(p, s.scores.len() as int, #[trigger] t.entities[k]) by {
                                assert(entity_ok(p, s.scores.len() as int, s.entities[k]));
                            }
                        }
                        if is_brick(c.role) {
                            lemma_count_update(s.removed, j, n);
                            assert(!is_ball(start[j].role));
                        }
                        assert forall|k: int| 0 <= k < n && #[trigger] t.removed[k] implies is_brick(start[k].role) by {
                            if k != j {
                                assert(s.removed[k]);
                            }
                        }
                        assert forall|k: int| 0 <= k < n implies (#[trigger] t.entities[k]).position == start[k].position
                            && t.entities[k].size == start[k].size
                            && is_ball(t.entities[k].role) == is_ball(start[k].role)
                            && (!is_ball(start[k].role) ==> t.entities[k] == start[k]) by {
                            assert(s.entities[k].position == start[k].position);
                        }
                    },
                    None => {},
                }
            }
        },
        _ => {},
    }
}

proof fn lemma_ball_pass_ok(p: Parameters, s: Pass, i: int, k: int, start: Seq<Entity>)
    requires
        parameters_ok(p),
        pass_ok(p, s, s.entities.len() as int, start),
        0 <= i < s.entities.len(),
        0 <= k <= s.entities.len(),
    ensures
        pass_ok(p, ball_pass(p, s, i, k), s.entities.len() as int, start),
        ball_pass(p, s, i, k).scores.len() == s.scores.len(),
        s.speed <= ball_pass(p, s, i, k).speed,
        forall|m: int| 0 <= m < s.scores.len() ==> s.scores[m] <= #[trigger] ball_pass(p, s, i, k).scores[m],
    decreases k,
{
    if k > 0 {
        lemma_ball_pass_ok(p, s, i, k - 1, start);
        let t = ball_pass(p, s, i, k - 1);
        lemma_contact_ok(p, t, i, k - 1, start);
        let u = contact(p, t, i, k - 1);
        assert forall|m: int| 0 <= m < s.scores.len() implies s.scores[m] <= #[trigger] u.scores[m] by {
            assert(s.scores[m] <= t.scores[m]);
        }
    }
}

proof fn lemma_full_pass_ok(p: Parameters, s: Pass, k: int, start: Seq<Entity>)
    requires
        parameters_ok(p),
        pass_ok(p, s, s.entities.len() as int, start),
        0 <= k <= s.entities.len(),
    ensures
        pass_ok(p, full_pass(p, s, k), s.entities.len() as int, start),
        full_pass(p, s, k).entities.len() == s.entities.len(),
        full_pass(p, s, k).scores.len() == s.scores.len(),
        s.speed <= full_pass(p, s, k).speed,
        forall|m: int| 0 <= m < s.scores.len() ==> s.scores[m] <= #[trigger] full_pass(p, s, k).scores[m],
    decreases k,
{
    if k > 0 {
        lemma_full_pass_ok(p, s, k - 1, start);
        let t = full_pass(p, s, k - 1);
        lemma_ball_pass_ok(p, t, k - 1, t.entities.len() as int, start);
        let u = full_pass(p, s, k);
        assert forall|m: int| 0 <= m < s.scores.len() implies s.scores[m] <= #[trigger] u.scores[m] by {
            assert(s.scores[m] <= t.scores[m]);
        }
    }
}

/// The entities among the first `k` that were not destroyed, in order.
pub open spec fn kept(es: Seq<Entity>, r: Seq<bool>, k: int) -> Seq<Entity>
    decreases k,
{
    if k <= 0 {
        Seq::empty()
    } else if r[k - 1] {
        kept(es, r, k - 1)
    } else {
        kept(es, r, k - 1).push(es[k - 1])
    }
}

/// The indices among the first `k` of the destroyed entities, ascending.
pub open spec fn destroyed_indices(r: Seq<bool>, k: int) -> Seq<usize>
    decreases k,
{
    if k <= 0 {
        Seq::empty()
    } else if r[k - 1] {
        destroyed_indices(r, k - 1).push((k - 1) as usize)
    } else {
        destroyed_indices(r, k - 1)
    }
}

/// A new ball at the configured starting position, moving with `v`.
pub open spec fn new_ball(p: Parameters, v: Velocity) -> Entity {
    Entity { position: p.ball.starting_position, size: p.ball.size, role: Role::Ball(v) }
}

/// The balls spawned for the first `k` brick hits: hit `m` duplicates the
/// ball when its draw `draws[m]` is below the duplication chance.
pub open spec fn spawned_balls(p: Parameters, hits: Seq<Velocity>, draws: Seq<u32>, k: int) -> Seq<Entity>
    decreases k,
{
    if k <= 0 {
        Seq::empty()
    } else if draws[k - 1] < p.ball.duplicate_per_million {
        spawned_balls(p, hits, draws, k - 1).push(new_ball(p, hits[k - 1]))
    } else {
        spawned_balls(p, hits, draws, k - 1)
    }
}

proof fn lemma_kept(p: Parameters, players: int, es: Seq<Entity>, r: Seq<bool>, k: int)
    requires
        0 <= k <= es.len(),
        r.len() == es.len(),
        entities_ok(p, players, es),
    ensures
        kept(es, r, k).len() == k - count_removed(r, k),
        destroyed_indices(r, k).len() == count_removed(r, k),
        entities_ok(p, players, kept(es, r, k)),
        forall|m: int| 0 <= m < destroyed_indices(r, k).len() ==> #[trigger] destroyed_indices(r, k)[m] < k,
    decreases k,
{
    if k > 0 {
        lemma_kept(p, players, es, r, k - 1);
        assert(entity_ok(p, players, es[k - 1]));
        let t = kept(es, r, k);
        assert forall|m: int| 0 <= m < t.len() implies entity_ok(p, players, #[trigger] t[m]) by {
            if m < kept(es, r, k - 1).len() {
                assert(t[m] == kept(es, r, k - 1)[m]);
            }
        }
    }
}

/// Spawning under a certain or an impossible duplication: with the chance
/// at one million per million every brick hit spawns exactly one ball; with
/// the chance at zero none does.
pub proof fn lemma_spawn_certain_or_never(p: Parameters, hits: Seq<Velocity>, draws: Seq<u32>, k: int)
    requires
        0 <= k <= hits.len(),
        draws.len() == hits.len(),
        forall|m: int| 0 <= m < draws.len() ==> #[trigger] draws[m] < PER_MILLION,
    ensures
        p.ball.duplicate_per_million == PER_MILLION ==> spawned_balls(p, hits, draws, k).len() == k,
        p.ball.duplicate_per_million == 0 ==> spawned_balls(p, hits, draws, k).len() == 0,
        spawned_balls(p, hits, draws, k).len() <= k,
    decreases k,
{
    if k > 0 {
        lemma_spawn_certain_or_never(p, hits, draws, k - 1);
        assert(draws[k - 1] < PER_MILLION);
    }
}

proof fn lemma_spawned_ok(p: Parameters, players: int, hits: Seq<Velocity>, draws: Seq<u32>, k: int)
    requires
        parameters_ok(p),
        0 <= k <= hits.len(),
        draws.len() == hits.len(),
        forall|h: int| 0 <= h < hits.len() ==> velocity_ok(#[trigger] hits[h]),
    ensures
        entities_ok(p, players, spawned_balls(p, hits, draws, k)),
    decreases k,
{
    if k > 0 {
        lemma_spawned_ok(p, players, hits, draws, k - 1);
        assert(velocity_ok(hits[k - 1]));
        let t = spawned_balls(p, hits, draws, k);
        assert forall|m: int| 0 <= m < t.len() implies entity_ok(p, players, #[trigger] t[m]) by {
            if m < spawned_balls(p, hits, draws, k - 1).len() {
                assert(t[m] == spawned_balls(p, hits, draws, k - 1)[m]);
            }
        }
    }
}

/// A ball meets a collider at `j` when it overlaps it and `j` is a collider
/// not yet destroyed.
pub open spec fn meets(s: Pass, i: int, j: int) -> bool {
    let b = s.entities[i];
    let c = s.entities[j];
    &&& b.role is Ball
    &&& !is_ball(c.role)
    &&& !s.removed[j]
    &&& classify_spec(b.position, b.size, c.position, c.size) is Some
}

/// A brick is destroyed once: a ball meeting a brick marks exactly that
/// brick destroyed, adds one to the count of destroyed entities and records
/// one hit; a destroyed brick takes no further collision.
pub proof fn lemma_brick_destroyed_once(p: Parameters, s: Pass, i: int, j: int)
    requires
        s.removed.len() == s.entities.len(),
        0 <= i < s.entities.len(),
        0 <= j < s.entities.len(),
    ensures
        s.removed[j] ==> contact(p, s, i, j) == s,
        meets(s, i, j) && is_brick(s.entities[j].role) ==> {
            &&& contact(p, s, i, j).removed == s.removed.update(j, true)
            &&& count_removed(contact(p, s, i, j).removed, s.removed.len() as int)
                == count_removed(s.removed, s.removed.len() as int) + 1
            &&& contact(p, s, i, j).hits.len() == s.hits.len() + 1
            &&& contact(p, s, i, j).entities.len() == s.entities.len()
        },
{
    if meets(s, i, j) && is_brick(s.entities[j].role) {
        lemma_count_update(s.removed, j, s.removed.len() as int);
    }
}

/// A ball reflects only when moving into the collider: meeting a collider
/// on its right while moving right, it leaves moving left; meeting one on its
/// left while moving right, its horizontal velocity stays.
pub proof fn lemma_reflects_only_into_collider(p: Parameters, s: Pass, i: int, j: int)
    requires
        s.removed.len() == s.entities.len(),
        0 <= i < s.entities.len(),
        0 <= j < s.entities.len(),
        meets(s, i, j),
        s.entities[i].role->Ball_0.x > 0,
    ensures
        classify_spec(s.entities[i].position, s.entities[i].size, s.entities[j].position, s.entities[j].size)
            == Some(Side::Right) ==> contact(p, s, i, j).entities[i].role->Ball_0.x < 0,
        classify_spec(s.entities[i].position, s.entities[i].size, s.entities[j].position, s.entities[j].size)
            == Some(Side::Left) ==> contact(p, s, i, j).entities[i].role->Ball_0.x == s.entities[i].role->Ball_0.x,
{
}

/// A scoring wall credits its player: a ball meeting a wall whose scoring
/// player is `k` adds exactly one to score `k` and leaves the others.
pub proof fn lemma_scoring_wall_credits(p: Parameters, s: Pass, i: int, j: int, k: usize)
    requires
        s.removed.len() == s.entities.len(),
        0 <= i < s.entities.len(),
        0 <= j < s.entities.len(),
        meets(s, i, j),
        s.entities[j].role == Role::Wall(Wall { scoring_player: Some(k) }),
        k < s.scores.len(),
        s.scores[k as int] < u64::MAX,
    ensures
        contact(p, s, i, j).scores == s.scores.update(k as int, (s.scores[k as int] + 1) as u64),
        contact(p, s, i, j).scores[k as int] == s.scores[k as int] + 1,
        forall|m: int| 0 <= m < s.scores.len() && m != k ==> #[trigger] contact(p, s, i, j).scores[m] == s.scores[m],
{
}

impl World {
    /// Ball `i` against entity `j` (see `contact`).
    fn contact_step(&mut self, i: usize, j: usize, removed: &mut Vec<bool>, hits: &mut Vec<Velocity>)
        requires
            parameters_ok(old(self).parameters),
            old(self).scores@.len() >= 1,
            entities_ok(old(self).parameters, old(self).scores@.len() as int, old(self).entities@),
            old(self).ball_speed <= old(self).parameters.ball.max_speed,
            old(removed)@.len() == old(self).entities@.len(),
            i < old(self).entities@.len(),
            j < old(self).entities@.len(),
        ensures
            pass_of(*final(self), final(removed)@, final(hits)@)
                == contact(old(self).parameters, pass_of(*old(self), old(removed)@, old(hits)@), i as int, j as int),
            final(self).parameters == old(self).parameters,
    {
        let ghost s = pass_of(*self, removed@, hits@);
        let p = self.parameters;
        let b = self.entities[i];
        let c = self.entities[j];
        assert(entity_ok(p, self.scores@.len() as int, b));
        assert(entity_ok(p, self.scores@.len() as int, c));
        match b.role {
            Role::Ball(v) => {
                let c_is_ball = match c.role {
                    Role::Ball(_) => true,
                    _ => false,
                };
                if !removed[j] && !c_is_ball {
                    match classify(b.position, b.size, c.position, c.size) {
                        None => {},
                        Some(side) => {
                            let w = reflect(v, side);
                            self.entities.set(i, Entity { role: Role::Ball(w), ..b });
                            match c.role {
                                Role::Brick => {
                                    removed.set(j, true);
                                    hits.push(w);
                                },
                                Role::Wall(wall) => {
                                    match wall.scoring_player {
                                        Some(k) => {
                                            if k < self.scores.len() {
                                                let sc = self.scores[k];
                                                if sc < u64::MAX {
                                                    self.scores.set(k, sc + 1);
                                                }
                                            }
                                        },
                                        None => {},
                                    }
                                },
                                _ => {},
                            }
                            self.ball_speed = ramp_speed(
                                self.ball_speed,
                                p.ball.max_speed,
                                p.ball.growth_num,
                                p.ball.growth_den,
                            );
                            self.collided = true;
                            let ghost t = contact(p, s, i as int, j as int);
                            assert(self.scores@ =~= t.scores);
                            assert(self.entities@ =~= t.entities);
                            assert(removed@ =~= t.removed);
                            assert(hits@ =~= t.hits);
                        },
                    }
                }
            },
            _ => {},
        }
    }

    /// The collision engine. Every ball is tested, in store order, against
    /// every collider not yet destroyed (see `contact`); returns which
    /// entities were destroyed and, for each brick hit, the ball's velocity
    /// after reflection. One entity is destroyed per brick hit, and only
    /// bricks are.
    pub fn collide(&mut self) -> (r: (Vec<bool>, Vec<Velocity>))
        requires
            old(self).wf(),
        ensures
            final(self).wf(),
            final(self).parameters == old(self).parameters,
            ({
                let s = full_pass(old(self).parameters, pass_start(*old(self)), old(self).entities@.len() as int);
                &&& final(self).entities@ == s.entities
                &&& final(self).scores@ == s.scores
                &&& final(self).ball_speed == s.speed
                &&& final(self).collided == s.collided
                &&& r.0@ == s.removed
                &&& r.1@ == s.hits
            }),
            r.0@.len() == old(self).entities@.len(),
            final(self).entities@.len() == old(self).entities@.len(),
            final(self).scores@.len() == old(self).scores@.len(),
            count_removed(r.0@, r.0@.len() as int) == r.1@.len(),
            forall|j: int| 0 <= j < r.0@.len() && #[trigger] r.0@[j] ==> is_brick(old(self).entities@[j].role),
            forall|h: int| 0 <= h < r.1@.len() ==> velocity_ok(#[trigger] r.1@[h]),
            forall|j: int| 0 <= j < old(self).entities@.len() ==> (#[trigger] final(self).entities@[j]).position
                == old(self).entities@[j].position
                && final(self).entities@[j].size == old(self).entities@[j].size
                && is_ball(final(self).entities@[j].role) == is_ball(old(self).entities@[j].role)
                && (!is_ball(old(self).entities@[j].role) ==> final(self).entities@[j] == old(self).entities@[j]),
            old(self).ball_speed <= final(self).ball_speed,
            forall|k: int| 0 <= k < old(self).scores@.len() ==> old(self).scores@[k] <= #[trigger] final(self).scores@[k],
    {
        let ghost s0 = pass_start(*self);
        let ghost start = self.entities@;
        let p = self.parameters;
        let n = self.entities.len();
        let mut removed: Vec<bool> = Vec::new();
        let mut m: usize = 0;
        while m < n
            invariant
                m <= n,
                removed@.len() == m,
                forall|k: int| 0 <= k < m ==> !(#[trigger] removed@[k]),
            decreases n - m,
        {
            removed.push(false);
            m = m + 1;
        }
        let mut hits: Vec<Velocity> = Vec::new();
        assert(removed@ =~= s0.removed);
        assert(pass_of(*self, removed@, hits@) == s0);
        proof {
            lemma_count_none(removed@, n as int);
            assert forall|j: int| 0 <= j < n implies (#[trigger] s0.entities[j]).position == start[j].position
                && s0.entities[j].size == start[j].size
                && is_ball(s0.entities[j].role) == is_ball(start[j].role)
                && (!is_ball(start[j].role) ==> s0.entities[j] == start[j]) by {}
            assert(pass_ok(p, s0, n as int, start));
        }
        let mut i: usize = 0;
        while i < n
            invariant
                self.parameters == p,
                parameters_ok(p),
                n == start.len(),
                start == old(self).entities@,
                s0 == pass_start(*old(self)),
                s0.entities.len() == n,
                pass_ok(p, s0, n as int, start),
                0 <= i <= n,
                pass_of(*self, removed@, hits@) == full_pass(p, s0, i as int),
            decreases n - i,
        {
            proof {
                lemma_full_pass_ok(p, s0, i as int, start);
            }
            let ghost t = full_pass(p, s0, i as int);
            let mut j: usize = 0;
            while j < n
                invariant
                    self.parameters == p,
                    parameters_ok(p),
                    n == start.len(),
                    pass_ok(p, t, n as int, start),
                    t.entities.len() == n,
                    0 <= i < n,
                    0 <= j <= n,
                    pass_of(*self, removed@, hits@) == ball_pass(p, t, i as int, j as int),
                decreases n - j,
            {
                proof {
                    lemma_ball_pass_ok(p, t, i as int, j as int, start);
                }
                self.contact_step(i, j, &mut removed, &mut hits);
                j = j + 1;
            }
            i = i + 1;
        }
        proof {
            lemma_full_pass_ok(p, s0, n as int, start);
        }
        (removed, hits)
    }

    /// Removes the destroyed entities (`removed[j]` for entity `j`), keeping
    /// the order of the rest; returns the indices of those removed.
    pub fn remove_destroyed(&mut self, removed: &Vec<bool>) -> (gone: Vec<usize>)
        requires
            old(self).wf(),
            removed@.len() == old(self).entities@.len(),
        ensures
            final(self).wf(),
            final(self).parameters == old(self).parameters,
            final(self).scores@ == old(self).scores@,
            final(self).ball_speed == old(self).ball_speed,
            final(self).collided == old(self).collided,
            final(self).entities@ == kept(old(self).entities@, removed@, removed@.len() as int),
            gone@ == destroyed_indices(removed@, removed@.len() as int),
            final(self).entities@.len() == old(self).entities@.len() - count_removed(removed@, removed@.len() as int),
            gone@.len() == count_removed(removed@, removed@.len() as int),
    {
        let ghost start = self.entities@;
        let n = self.entities.len();
        let mut rest: Vec<Entity> = Vec::new();
        let mut gone: Vec<usize> = Vec::new();
        let mut i: usize = 0;
        while i < n
            invariant
                n == start.len(),
                start == self.entities@,
                removed@.len() == n,
                0 <= i <= n,
                rest@ == kept(start, removed@, i as int),
                gone@ == destroyed_indices(removed@, i as int),
            decreases n - i,
        {
            if removed[i] {
                gone.push(i);
            } else {
                rest.push(self.entities[i]);
            }
            i = i + 1;
        }
        proof {
            lemma_kept(self.parameters, self.scores@.len() as int, start, removed@, n as int);
        }
        self.entities = rest;
        gone
    }

    /// Spawns a ball at the starting position for each brick hit whose draw
    /// (`draws[m]` for hit `m`, out of a million) is below the duplication
    /// chance; the new ball moves with the velocity recorded for the hit.
    /// Returns how many were spawned.
    pub fn spawn_duplicates(&mut self, hits: &Vec<Velocity>, draws: &Vec<u32>) -> (spawned: usize)
        requires
            old(self).wf(),
            draws@.len() == hits@.len(),
            forall|h: int| 0 <= h < hits@.len() ==> velocity_ok(#[trigger] hits@[h]),
        ensures
            final(self).wf(),
            final(self).parameters == old(self).parameters,
            final(self).scores@ == old(self).scores@,
            final(self).ball_speed == old(self).ball_speed,
            final(self).collided == old(self).collided,
            final(self).entities@ == old(self).entities@ + spawned_balls(
                old(self).parameters,
                hits@,
                draws@,
                hits@.len() as int,
            ),
            spawned == spawned_balls(old(self).parameters, hits@, draws@, hits@.len() as int).len(),
            spawned <= hits@.len(),
    {
        let ghost start = self.entities@;
        let p = self.parameters;
        let mut spawned: usize = 0;
        let mut m: usize = 0;
        while m < hits.len()
            invariant
                self.parameters == p,
                parameters_ok(p),
                self.scores@ == old(self).scores@,
                self.ball_speed == old(self).ball_speed,
                self.collided == old(self).collided,
                entities_ok(p, self.scores@.len() as int, start),
                start == old(self).entities@,
                draws@.len() == hits@.len(),
                0 <= m <= hits@.len(),
                self.entities@ == start + spawned_balls(p, hits@, draws@, m as int),
                spawned == spawned_balls(p, hits@, draws@, m as int).len(),
                spawned <= m,
            decreases hits@.len() - m,
        {
            if draws[m] < p.ball.duplicate_per_million {
                let e = Entity { position: p.ball.starting_position, size: p.ball.size, role: Role::Ball(hits[m]) };
                self.entities.push(e);
                spawned = spawned + 1;
            }
            m = m + 1;
        }
        proof {
            let t = spawned_balls(p, hits@, draws@, hits@.len() as int);
            lemma_spawned_ok(p, self.scores@.len() as int, hits@, draws@, hits@.len() as int);
            assert forall|k: int| 0 <= k < self.entities@.len() implies entity_ok(p, self.scores@.len() as int, #[trigger] self.entities@[k]) by {
                if k < start.len() {
                    assert(self.entities@[k] == start[k]);
                } else {
                    assert(self.entities@[k] == t[k - start.len()]);
                }
            }
        }
        spawned
    }
}

} // verus!
