use graph_fight::geometry::{Circle, Point, Range, Rectangle};
use rand::rngs::SmallRng;
use rand::SeedableRng;

/// Grid steps per unit of length.
const U: i32 = 1000;

fn p(x: i32, y: i32) -> Point {
    Point::new(x, y)
}

#[test]
fn test_collision_no() {
    let a = Circle::new(p(0, 0), 5 * U as u32);
    let b = Circle::new(p(10 * U, 10 * U), 5 * U as u32);

    assert_eq!(a.collision_circle(&b), false);
}

#[test]
fn test_collision_yes() {
    let a = Circle::new(p(0, 0), 5 * U as u32);
    let b = Circle::new(p(5 * U, 0), 5 * U as u32);

    assert_eq!(a.collision_circle(&b), true);
}

#[test]
fn touching_circles_collide() {
    let a = Circle::new(p(0, 0), 5 * U as u32);
    let b = Circle::new(p(10 * U, 0), 5 * U as u32);
    assert!(a.collision_circle(&b));
    let c = Circle::new(p(10 * U + 1, 0), 5 * U as u32);
    assert!(!a.collision_circle(&c));
}

#[test]
fn test_collision_rec_yes() {
    let a = Rectangle::new((0, 0).into(), 10 * U as u32, 10 * U as u32);

    let pos = vec![(5 * U, 5 * U), (-5 * U, 5 * U), (-5 * U, -5 * U), (5 * U, -5 * U)];

    for t in pos {
        let b = Rectangle::new(t.into(), 10 * U as u32, 10 * U as u32);
        assert_eq!(a.collision_rec(&b), true);
        assert_eq!(b.collision_rec(&a), true);
    }
}

#[test]
fn test_collision_rec_no() {
    let a = Rectangle::new((0, 0).into(), 10 * U as u32, 10 * U as u32);

    let pos = vec![(10 * U, 10 * U), (-10 * U, 10 * U), (-10 * U, -10 * U), (10 * U, -10 * U)];

    for t in pos {
        let b = Rectangle::new(t.into(), 5 * U as u32, 5 * U as u32);
        assert_eq!(a.collision_rec(&b), false);
        assert_eq!(b.collision_rec(&a), false);
    }
}

#[test]
fn test_collision_rec_circ_yes() {
    let a = Rectangle::new((0, 0).into(), 10 * U as u32, 10 * U as u32);

    let pos = vec![
        (0, 0),
        (5 * U, 0),
        (5 * U, 5 * U),
        (0, 5 * U),
        (-5 * U, 5 * U),
        (-5 * U, 0),
        (-5 * U, -5 * U),
        (0, -5 * U),
        (5 * U, -5 * U),
    ];

    for t in pos {
        let b = Circle::new(t.into(), 4 * U as u32);
        assert_eq!(a.collision_circle(&b), true);
        assert_eq!(b.collision_rec(&a), true);
    }
}

#[test]
fn test_collision_rec_circ_no() {
    let a = Rectangle::new((0, 0).into(), 2 * U as u32, 2 * U as u32);

    let pos = vec![
        (5 * U, 0),
        (5 * U, 5 * U),
        (0, 5 * U),
        (-5 * U, 5 * U),
        (-5 * U, 0),
        (-5 * U, -5 * U),
        (0, -5 * U),
        (5 * U, -5 * U),
    ];

    for t in pos {
        let b = Circle::new(t.into(), 2 * U as u32);
        assert_eq!(a.collision_circle(&b), false);
        assert_eq!(b.collision_rec(&a), false);
    }
}

#[test]
fn circle_grazing_a_corner_collides() {
    // The corner (1, 1) lies at distance 5 from (4, 5).
    let a = Rectangle::new((0, 0).into(), 2, 2);
    assert!(Circle::new((4, 5).into(), 5).collision_rec(&a));
    assert!(!Circle::new((4, 5).into(), 4).collision_rec(&a));
}

#[test]
fn test_inside_rectangle() {
    let a = Rectangle::new((0, 0).into(), 10 * U as u32, 10 * U as u32);

    let pos = vec![
        ((0, 0), true),
        ((4 * U, 4 * U), true),
        ((-4 * U, 4 * U), true),
        ((-4 * U, -4 * U), true),
        ((4 * U, -4 * U), true),
        ((10 * U, 10 * U), false),
        ((-10 * U, 10 * U), false),
        ((-10 * U, -10 * U), false),
        ((10 * U, -10 * U), false),
    ];

    for (q, r) in pos {
        let b: Point = q.into();
        assert_eq!(a.inside(&b), r);
    }
}

#[test]
fn geometry_test_valid_pos() {
    let area = Rectangle::new((0, 0).into(), 20 * U as u32, 20 * U as u32);

    let pos = vec![
        ((0, 0), true),
        ((5 * U, 5 * U), true),
        ((-5 * U, 5 * U), true),
        ((-5 * U, -5 * U), true),
        ((5 * U, -5 * U), true),
        ((20 * U, 20 * U), false),
        ((-20 * U, 20 * U), false),
        ((-20 * U, -20 * U), false),
        ((20 * U, -20 * U), false),
        ((7 * U, 0), false),
        ((7 * U, 7 * U), false),
    ];

    for (q, r) in pos {
        let c = Circle::new(q.into(), 4 * U as u32);
        assert_eq!(area.circle_inside(&c), r);
    }
}

#[test]
fn circle_touching_the_edge_is_inside() {
    let area = Rectangle::new((0, 0).into(), 20 * U as u32, 20 * U as u32);
    assert!(area.circle_inside(&Circle::new((6 * U, 0).into(), 4 * U as u32)));
    assert!(!area.circle_inside(&Circle::new((6 * U + 1, 0).into(), 4 * U as u32)));
}

#[test]
fn test_partition() {
    let a = Rectangle::new((0, 0).into(), 10 * U as u32, 10 * U as u32);

    let parts = a.partition(4);
    let expect = vec![
        (-5 * U / 2, -5 * U / 2),
        (5 * U / 2, -5 * U / 2),
        (-5 * U / 2, 5 * U / 2),
        (5 * U / 2, 5 * U / 2),
    ];

    assert_eq!(parts.len(), expect.len());
    for (q, e) in parts.iter().zip(expect.iter()) {
        assert_eq!(q.pos(), Point::new(e.0, e.1), "expected centre {:?}, got {:?}", e, q.pos());
        assert_eq!((q.width(), q.height()), (5 * U as u32, 5 * U as u32));
    }
}

#[test]
fn partition_of_one_is_the_rectangle() {
    let a = Rectangle::new((3, -4).into(), 17, 9);
    let parts = a.partition(1);
    assert_eq!(parts.len(), 1);
    assert_eq!(
        (parts[0].left(), parts[0].right(), parts[0].bottom(), parts[0].top()),
        (a.left(), a.right(), a.bottom(), a.top())
    );
}

#[test]
fn odd_partition_gives_the_extra_zone_to_the_first_half() {
    // 12 wide, 4 high: cut across the width; the left half, 6 by 4, gets two
    // zones and is cut across its width again.
    let a = Rectangle::new((0, 0).into(), 12, 4);
    let parts = a.partition(3);
    let edges: Vec<(i32, i32, i32, i32)> =
        parts.iter().map(|r| (r.left(), r.right(), r.bottom(), r.top())).collect();
    assert_eq!(edges, vec![(-6, -3, -2, 2), (-3, 0, -2, 2), (0, 6, -2, 2)]);
}

#[test]
fn partition_areas_add_up() {
    let a = Rectangle::new((11, 7).into(), 1001, 333);
    for n in 1..20u64 {
        let parts = a.partition(n);
        assert_eq!(parts.len() as u64, n);
        let total: u64 = parts.iter().map(|r| r.width() as u64 * r.height() as u64).sum();
        assert_eq!(total, 1001 * 333);
        for r in &parts {
            assert!(a.left() <= r.left() && r.right() <= a.right());
            assert!(a.bottom() <= r.bottom() && r.top() <= a.top());
        }
    }
}

#[test]
fn odd_width_rectangle_puts_extra_step_right() {
    let a = Rectangle::new((0, 0).into(), 5, 3);
    assert_eq!((a.left(), a.right(), a.bottom(), a.top()), (-2, 3, -1, 2));
    assert_eq!(a.pos(), Point::new(0, 0));
    assert_eq!(a.pos_s(), Point::new(0, 0));
    assert_eq!((a.range_h().min(), a.range_h().max()), (-2, 3));
    assert_eq!((a.range_v().min(), a.range_v().max()), (-1, 2));
}

#[test]
fn test_distance() {
    let a = Point::new(0, 0);
    let b = Point::new(10 * U, 10 * U);

    let distance = a.distance_to(&b);

    assert!(distance >= 14140 && distance <= 14150);
}

#[test]
fn distance_rounds_down() {
    assert_eq!(Point::new(0, 0).distance_to(&Point::new(3, 4)), 5);
    assert_eq!(Point::new(0, 0).distance_to(&Point::new(1, 1)), 1);
    assert_eq!(Point::new(0, 0).distance_squared(&Point::new(-3, 4)), 25);
    let far = Point::new(i32::MIN, i32::MIN).distance_to(&Point::new(i32::MAX, i32::MAX));
    assert_eq!(far, 6074000998);
}

#[test]
fn test_sub() {
    let a = Point::new(0, 0);
    let b = Point::new(10 * U, 5 * U);
    let c = &a - &b;
    assert!(c.x <= -9990 && c.x >= -10010 && c.y <= -4990 && c.y >= -5010);

    let c = a - b;
    assert!(c.x <= -9990 && c.x >= -10010 && c.y <= -4990 && c.y >= -5010);
}

#[test]
fn point_add() {
    assert_eq!(Point::new(1, 2) + Point::new(10, -20), Point::new(11, -18));
}

#[test]
fn range_width_and_shrink() {
    let r = Range::new(-10, 30);
    assert_eq!((r.min(), r.max(), r.width()), (-10, 30, 40));
    let s = r.subtract_both(5);
    assert_eq!((s.min(), s.max()), (-5, 25));
    let t = r.subtract_both(20);
    assert_eq!((t.min(), t.max(), t.width()), (10, 10, 0));
}

#[test]
fn random_points_stay_in_their_ranges() {
    let mut rng = SmallRng::seed_from_u64(3);
    let xr = Range::new(-50, 50);
    let yr = Range::new(100, 103);
    let mut seen_other_than_min = false;
    for _ in 0..500 {
        let q = Point::random(&xr, &yr, &mut rng);
        assert!(-50 <= q.x && q.x <= 50);
        assert!(100 <= q.y && q.y <= 103);
        if q.x != -50 || q.y != 100 {
            seen_other_than_min = true;
        }
    }
    assert!(seen_other_than_min);
}

#[test]
fn circle_accessors() {
    let c = Circle::new(Point::new(3, -7), 9);
    assert_eq!(c.radius(), 9);
    assert_eq!(*c.pos(), Point::new(3, -7));
}
