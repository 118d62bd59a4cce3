use breakout::geometry::{clamp, classify, isqrt, step_component, Point, Side, Size};
use breakout::motion::{move_paddle, ramp_speed, reflect, Effect, Paddle, Velocity};
use breakout::world::{
    check_parameters, ConfigError, Entity, Parameters, ParametersBall, Role, Wall, World,
    PER_MILLION,
};

fn pt(x: i64, y: i64) -> Point {
    Point { x, y }
}

fn half(w: i64, h: i64) -> Size {
    Size { half_width: w, half_height: h }
}

fn parameters(per_million: u32) -> Parameters {
    Parameters {
        ball: ParametersBall {
            starting_position: pt(0, -50),
            starting_direction: pt(1, -1),
            size: half(15, 15),
            speed: 400,
            max_speed: 2000,
            growth_num: 101,
            growth_den: 100,
            duplicate_per_million: per_million,
            padding_for_bounds: 1,
        },
        arena_min: pt(-600, -300),
        arena_max: pt(600, 300),
        tick_rate: 64,
    }
}

fn ball(x: i64, y: i64, vx: i64, vy: i64, speed: u64) -> Entity {
    Entity {
        position: pt(x, y),
        size: half(15, 15),
        role: Role::Ball(Velocity { x: vx, y: vy, speed }),
    }
}

fn wall(x: i64, y: i64, w: i64, h: i64, scoring: Option<usize>) -> Entity {
    Entity {
        position: pt(x, y),
        size: half(w, h),
        role: Role::Wall(Wall { scoring_player: scoring }),
    }
}

fn brick(x: i64, y: i64) -> Entity {
    Entity { position: pt(x, y), size: half(10, 5), role: Role::Brick }
}

fn velocity_of(e: &Entity) -> Velocity {
    match e.role {
        Role::Ball(v) => v,
        _ => panic!("not a ball"),
    }
}

fn no_input(players: usize) -> Vec<Vec<Effect>> {
    vec![Vec::new(); players]
}

#[test]
fn right_wall_contact_reflects_ball() {
    let b = ball(590, 0, 10, 0, 10);
    let w = wall(600, 0, 5, 300, None);
    assert_eq!(classify(b.position, b.size, w.position, w.size), Some(Side::Right));
    let v = reflect(velocity_of(&b), Side::Right);
    assert_eq!(v.x, -10);
    let mut world = World::new(parameters(0), vec![b, w], 2).unwrap();
    let (removed, hits) = world.collide();
    assert_eq!(velocity_of(&world.entities[0]).x, -10);
    assert_eq!(velocity_of(&world.entities[0]).y, 0);
    assert_eq!(removed, vec![false, false]);
    assert!(hits.is_empty());
    assert!(world.collided);
}

#[test]
fn scoring_wall_credits_player_zero() {
    let b = ball(590, 0, 10, 0, 400);
    let w = wall(600, 0, 5, 300, Some(0));
    let mut world = World::new(parameters(0), vec![b, w], 2).unwrap();
    assert_eq!(world.scores, vec![0, 0]);
    world.collide();
    assert_eq!(world.scores, vec![1, 0]);
}

#[test]
fn scoring_wall_of_player_one_leaves_other_scores() {
    let b = ball(-590, 0, -10, 0, 400);
    let w = wall(-600, 0, 5, 300, Some(1));
    let mut world = World::new(parameters(0), vec![b, w], 3).unwrap();
    world.collide();
    assert_eq!(world.scores, vec![0, 1, 0]);
}

#[test]
fn speed_ramp_from_initial_to_cap() {
    assert_eq!(ramp_speed(400, 2000, 101, 100), 404);
    let mut s: u64 = 400;
    let mut steps = 0;
    while s < 2000 {
        let next = ramp_speed(s, 2000, 101, 100);
        assert!(next > s);
        s = next;
        steps += 1;
        assert!(steps < 1000);
    }
    assert_eq!(s, 2000);
    assert_eq!(ramp_speed(s, 2000, 101, 100), 2000);
}

#[test]
fn ramp_caps_at_maximum() {
    assert_eq!(ramp_speed(1990, 2000, 101, 100), 2000);
    assert_eq!(ramp_speed(2500, 2000, 101, 100), 2500);
}

#[test]
fn reflection_only_into_the_surface() {
    let v = Velocity { x: 10, y: 7, speed: 5 };
    assert_eq!(reflect(v, Side::Right), Velocity { x: -10, y: 7, speed: 5 });
    assert_eq!(reflect(v, Side::Left), v);
    assert_eq!(reflect(v, Side::Top), Velocity { x: 10, y: -7, speed: 5 });
    assert_eq!(reflect(v, Side::Bottom), v);
    assert_eq!(reflect(v, Side::Inside), v);
    let w = Velocity { x: -3, y: -4, speed: 5 };
    assert_eq!(reflect(w, Side::Left), Velocity { x: 3, y: -4, speed: 5 });
    assert_eq!(reflect(w, Side::Bottom), Velocity { x: -3, y: 4, speed: 5 });
}

#[test]
fn classification_cases() {
    let s = half(15, 15);
    // No overlap.
    assert_eq!(classify(pt(0, 0), s, pt(100, 0), half(5, 5)), None);
    // Touching edges do not overlap.
    assert_eq!(classify(pt(0, 0), s, pt(20, 0), half(5, 5)), None);
    // Center inside the collider.
    assert_eq!(classify(pt(0, 0), s, pt(0, 0), half(50, 50)), Some(Side::Inside));
    // Shallow vertical contact above and below.
    assert_eq!(classify(pt(0, 0), s, pt(0, 18), half(100, 5)), Some(Side::Top));
    assert_eq!(classify(pt(0, 0), s, pt(0, -18), half(100, 5)), Some(Side::Bottom));
    // Shallow horizontal contact on the left.
    assert_eq!(classify(pt(0, 0), s, pt(-18, 0), half(5, 100)), Some(Side::Left));
    // Equal depths count as horizontal.
    assert_eq!(classify(pt(0, 0), s, pt(20, 20), half(10, 10)), Some(Side::Right));
}

#[test]
fn brick_destroyed_once_by_two_balls() {
    let b1 = ball(0, 12, 0, -1, 400);
    let b2 = ball(0, -12, 0, 1, 400);
    let k = brick(0, 0);
    let mut world = World::new(parameters(0), vec![b1, b2, k], 2).unwrap();
    let (removed, hits) = world.collide();
    assert_eq!(removed, vec![false, false, true]);
    assert_eq!(hits.len(), 1);
    // The first ball reflected off the brick; the second met no brick.
    assert_eq!(velocity_of(&world.entities[0]).y, 1);
    assert_eq!(velocity_of(&world.entities[1]).y, 1);
    let gone = world.remove_destroyed(&removed);
    assert_eq!(gone, vec![2]);
    assert_eq!(world.entities.len(), 2);
}

#[test]
fn tick_removes_one_brick_per_hit() {
    let b = ball(0, 20, 0, -1, 400);
    let k1 = brick(0, 0);
    let k2 = brick(300, 200);
    let mut world = World::new(parameters(0), vec![b, k1, k2], 2).unwrap();
    let report = world.tick(&no_input(2));
    assert_eq!(report.removed, vec![1]);
    assert_eq!(report.spawned, 0);
    assert!(report.sound);
    assert_eq!(world.entities.len(), 2);
    assert_eq!(world.entities[1], k2);
    assert_eq!(world.ball_speed, 404);
}

#[test]
fn certain_duplication_spawns_one_ball_per_brick_hit() {
    let b = ball(0, 20, 0, -1, 400);
    let k = brick(0, 0);
    let mut world = World::new(parameters(PER_MILLION), vec![b, k], 2).unwrap();
    let report = world.tick(&no_input(2));
    assert_eq!(report.removed, vec![1]);
    assert_eq!(report.spawned, 1);
    assert_eq!(world.entities.len(), 2);
    let spawned = world.entities[1];
    assert_eq!(spawned.position, pt(0, -50));
    assert_eq!(spawned.size, half(15, 15));
    assert_eq!(velocity_of(&spawned), Velocity { x: 0, y: 1, speed: 404 });
}

#[test]
fn impossible_duplication_spawns_none() {
    let b = ball(0, 20, 0, -1, 400);
    let k1 = brick(0, 0);
    let k2 = brick(15, 0);
    let mut world = World::new(parameters(0), vec![b, k1, k2], 2).unwrap();
    let report = world.tick(&no_input(2));
    assert_eq!(report.removed, vec![1, 2]);
    assert_eq!(report.spawned, 0);
    assert_eq!(world.entities.len(), 1);
}

#[test]
fn spawn_duplicates_follows_draws() {
    let mut world = World::new(parameters(500_000), vec![ball(0, 0, 1, 1, 400)], 1).unwrap();
    let hits = vec![Velocity { x: 1, y: 0, speed: 400 }, Velocity { x: 0, y: 1, speed: 400 }];
    let spawned = world.spawn_duplicates(&hits, &vec![499_999, 500_000]);
    assert_eq!(spawned, 1);
    assert_eq!(world.entities.len(), 2);
    assert_eq!(velocity_of(&world.entities[1]), Velocity { x: 1, y: 0, speed: 400 });
}

#[test]
fn every_ball_moves_at_shared_speed_after_tick() {
    let b1 = ball(0, 0, 3, 4, 100);
    let b2 = ball(-200, 100, -1, 0, 9999);
    let mut world = World::new(parameters(0), vec![b1, b2], 2).unwrap();
    world.tick(&no_input(2));
    assert_eq!(world.ball_speed, 400);
    for e in &world.entities {
        assert_eq!(velocity_of(e).speed, world.ball_speed);
    }
    assert_eq!(velocity_of(&world.entities[0]), Velocity { x: 3, y: 4, speed: 400 });
}

#[test]
fn shared_speed_never_decreases_and_stays_capped() {
    let b = ball(0, 0, 5, 3, 400);
    let walls = vec![
        wall(-600, 0, 5, 305, None),
        wall(600, 0, 5, 305, None),
        wall(0, -300, 605, 5, None),
        wall(0, 300, 605, 5, None),
    ];
    let mut entities = vec![b];
    entities.extend(walls);
    let mut world = World::new(parameters(0), entities, 2).unwrap();
    let mut last = world.ball_speed;
    for _ in 0..3000 {
        world.tick(&no_input(2));
        assert!(world.ball_speed >= last);
        assert!(world.ball_speed <= 2000);
        last = world.ball_speed;
    }
    assert!(world.ball_speed > 400);
}

#[test]
fn integrator_moves_and_clamps_ball() {
    // 640 units per second at 64 ticks per second: 10 units per tick.
    let mut p = parameters(0);
    p.ball.max_speed = 2000;
    let mut world = World::new(p, vec![ball(0, 0, 1, 0, 640), ball(598, 0, 1, 0, 640)], 1).unwrap();
    world.integrate();
    assert_eq!(world.entities[0].position, pt(10, 0));
    assert_eq!(world.entities[1].position, pt(601, 0));
}

fn paddle_entity(y: i64) -> Entity {
    Entity {
        position: pt(-500, y),
        size: half(10, 60),
        role: Role::Paddle(Paddle { owner: 0, speed: 640, min: pt(-500, -100), max: pt(-500, 100) }),
    }
}

#[test]
fn paddle_stays_within_bounds() {
    let mut world = World::new(parameters(0), vec![paddle_entity(95)], 2).unwrap();
    let up = vec![vec![Effect::Move(pt(0, 1))], Vec::new()];
    world.tick(&up);
    assert_eq!(world.entities[0].position, pt(-500, 100));
    world.tick(&up);
    assert_eq!(world.entities[0].position, pt(-500, 100));
    let sideways = vec![vec![Effect::Move(pt(1, 0)), Effect::Nothing], Vec::new()];
    world.tick(&sideways);
    assert_eq!(world.entities[0].position, pt(-500, 100));
}

#[test]
fn paddle_moves_along_normalized_sum() {
    let p = Paddle { owner: 0, speed: 640, min: pt(-1000, -1000), max: pt(1000, 1000) };
    // Up twice and right once: direction (1, 2), ten units per tick.
    let es = vec![Effect::Move(pt(0, 1)), Effect::Move(pt(0, 1)), Effect::Move(pt(1, 0))];
    let r = move_paddle(pt(0, 0), &p, &es, 64);
    assert_eq!(r, pt(4, 8));
    // Opposite controls cancel out: no move.
    let es = vec![Effect::Move(pt(0, 1)), Effect::Move(pt(0, -1))];
    assert_eq!(move_paddle(pt(3, 3), &p, &es, 64), pt(3, 3));
    // No control: no move, even outside the bounds.
    assert_eq!(move_paddle(pt(5000, 5000), &p, &Vec::new(), 64), pt(5000, 5000));
}

#[test]
fn integer_square_roots() {
    assert_eq!(isqrt(0), 0);
    assert_eq!(isqrt(1), 1);
    assert_eq!(isqrt(15), 3);
    assert_eq!(isqrt(16), 4);
    assert_eq!(isqrt(1_000_000_000_000), 1_000_000);
    assert_eq!(isqrt((1u128 << 120) - 1), (1u64 << 60) - 1);
}

#[test]
fn step_components() {
    // 400 / (64 * sqrt 2) = 4.41...
    assert_eq!(step_component(1, 2, 400, 64), 4);
    assert_eq!(step_component(-1, 2, 400, 64), -4);
    // 3 * 640 / (64 * 5) = 6 exactly.
    assert_eq!(step_component(-3, 25, 640, 64), -6);
    assert_eq!(step_component(4, 25, 640, 64), 8);
    assert_eq!(step_component(0, 25, 640, 64), 0);
}

#[test]
fn clamping() {
    assert_eq!(clamp(5, 0, 10), 5);
    assert_eq!(clamp(-5, 0, 10), 0);
    assert_eq!(clamp(50, 0, 10), 10);
}

#[test]
fn inside_contact_destroys_brick_without_reflection() {
    let b = ball(0, 0, 1, 1, 400);
    let k = Entity { position: pt(0, 0), size: half(40, 40), role: Role::Brick };
    let mut world = World::new(parameters(0), vec![b, k], 2).unwrap();
    let (removed, hits) = world.collide();
    assert_eq!(removed, vec![false, true]);
    assert_eq!(hits, vec![Velocity { x: 1, y: 1, speed: 400 }]);
    assert_eq!(velocity_of(&world.entities[0]), Velocity { x: 1, y: 1, speed: 400 });
    assert_eq!(world.ball_speed, 404);
}

#[test]
fn dispatcher_reports_once_and_clears() {
    let b = ball(590, 0, 10, 0, 400);
    let entities = vec![b, wall(600, 0, 5, 300, None), wall(590, 10, 300, 5, None)];
    let mut world = World::new(parameters(0), entities, 2).unwrap();
    world.collide();
    assert!(world.collided);
    assert_eq!(world.ball_speed, 408);
    assert!(world.dispatch());
    assert!(!world.collided);
    assert!(!world.dispatch());
}

#[test]
fn tick_without_collision_is_silent() {
    let mut world = World::new(parameters(0), vec![ball(0, 0, 1, 0, 400)], 2).unwrap();
    let report = world.tick(&no_input(2));
    assert!(!report.sound);
    assert!(report.removed.is_empty());
    assert_eq!(report.spawned, 0);
    assert_eq!(world.ball_speed, 400);
}

#[test]
fn setup_errors() {
    let mut bad = parameters(0);
    bad.ball.speed = 0;
    assert!(!check_parameters(&bad));
    assert_eq!(World::new(bad, Vec::new(), 2).err(), Some(ConfigError::Parameters));
    let mut too_likely = parameters(0);
    too_likely.ball.duplicate_per_million = PER_MILLION + 1;
    assert_eq!(World::new(too_likely, Vec::new(), 2).err(), Some(ConfigError::Parameters));
    assert_eq!(World::new(parameters(0), Vec::new(), 0).err(), Some(ConfigError::NoPlayers));
    let flat = Entity { position: pt(0, 0), size: half(0, 5), role: Role::Brick };
    let bad_wall = wall(0, 0, 5, 5, Some(2));
    assert_eq!(
        World::new(parameters(0), vec![brick(0, 0), flat, bad_wall], 2).err(),
        Some(ConfigError::Entity(1))
    );
    assert_eq!(
        World::new(parameters(0), vec![brick(0, 0), bad_wall], 2).err(),
        Some(ConfigError::Entity(1))
    );
    let outside = ball(700, 0, 1, 0, 400);
    assert_eq!(World::new(parameters(0), vec![outside], 2).err(), Some(ConfigError::Entity(0)));
    let world = World::new(parameters(0), vec![brick(0, 0)], 3).unwrap();
    assert_eq!(world.scores, vec![0, 0, 0]);
    assert_eq!(world.ball_speed, 400);
    assert!(!world.collided);
}

#[test]
fn starting_velocity_uses_direction_and_speed() {
    let p = parameters(0);
    assert_eq!(p.ball.starting_velocity(), Velocity { x: 1, y: -1, speed: 400 });
}
