use breakout::geometry::{Point, Size};
use breakout::level::{ParametersBrick, WallSegment};
use breakout::world::{Role, Wall};

fn pt(x: i64, y: i64) -> Point {
    Point { x, y }
}

#[test]
fn vertical_wall_box() {
    let w = WallSegment { ends: (pt(600, 300), pt(600, -300)), thickness: 5, scoring_player: Some(0) };
    assert!(w.check());
    assert_eq!(w.end_a(), pt(600, 300));
    assert_eq!(w.end_b(), pt(600, -300));
    assert_eq!(w.thickness(), 5);
    assert_eq!(w.translation(), pt(600, 0));
    assert_eq!(w.scale(), Size { half_width: 5, half_height: 300 });
    let e = w.to_entity();
    assert_eq!(e.position, pt(600, 0));
    assert_eq!(e.size, Size { half_width: 5, half_height: 300 });
    assert_eq!(e.role, Role::Wall(Wall { scoring_player: Some(0) }));
}

#[test]
fn horizontal_wall_box() {
    let w = WallSegment { ends: (pt(-600, -300), pt(600, -300)), thickness: 5, scoring_player: None };
    assert_eq!(w.translation(), pt(0, -300));
    assert_eq!(w.scale(), Size { half_width: 600, half_height: 5 });
}

#[test]
fn diagonal_wall_box() {
    // Unit normal (-4, 3) / 5, thickness 10: offsets 8 and 6.
    let w = WallSegment { ends: (pt(0, 0), pt(3, 4)), thickness: 10, scoring_player: None };
    assert_eq!(w.translation(), pt(1, 2));
    assert_eq!(w.scale(), Size { half_width: 1 + 8, half_height: 2 + 6 });
    let v = WallSegment { ends: (pt(-3, -4), pt(0, 0)), thickness: 10, scoring_player: None };
    assert_eq!(v.translation(), pt(-2, -2));
}

#[test]
fn point_wall_has_no_extent() {
    let w = WallSegment { ends: (pt(7, 7), pt(7, 7)), thickness: 10, scoring_player: None };
    assert_eq!(w.scale(), Size { half_width: 0, half_height: 0 });
}

#[test]
fn wall_out_of_range_is_rejected() {
    let w = WallSegment { ends: (pt(0, 0), pt(0, 10)), thickness: -1, scoring_player: None };
    assert!(!w.check());
    let far = WallSegment { ends: (pt(i64::MAX, 0), pt(0, 10)), thickness: 1, scoring_player: None };
    assert!(!far.check());
}

#[test]
fn brick_parameters() {
    let b = ParametersBrick { width: 21, height: 10 };
    assert_eq!(b.size(), Size { half_width: 10, half_height: 5 });
    let e = b.brick_at(pt(3, -4));
    assert_eq!(e.position, pt(3, -4));
    assert_eq!(e.role, Role::Brick);
}
