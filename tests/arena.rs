use graph_fight::game::{build_arena, Arena, Team};
use graph_fight::geometry::{Circle, Point};
use rand::rngs::SmallRng;
use rand::SeedableRng;

/// Grid steps per unit of length.
const U: i32 = 1000;

fn all_players(arena: &Arena) -> Vec<(usize, Circle)> {
    let mut v = Vec::new();
    for (t, team) in arena.get_teams().iter().enumerate() {
        for p in team.players() {
            v.push((t, *p.shape()));
        }
    }
    v
}

fn layout(arena: &Arena) -> Vec<(i32, i32, u32)> {
    let mut v: Vec<(i32, i32, u32)> =
        arena.get_obstacles().iter().map(|o| (o.shape().pos().x, o.shape().pos().y, o.shape().radius())).collect();
    for (_, c) in all_players(arena) {
        v.push((c.pos().x, c.pos().y, c.radius()));
    }
    v
}

#[test]
fn sparse_arena_builds_without_overlaps() {
    let mut rng = SmallRng::seed_from_u64(1);
    let sizes = vec![3usize, 4, 0, 2];
    let arena = build_arena(20 * U, 10 * U, &vec![vec![U, 2 * U, 500]], U as u32 / 2, 2 * U as u32, &sizes, U as u32 / 2, &mut rng).unwrap();
    assert_eq!(arena.get_teams().len(), 4);
    let zones = arena.get_area().partition(4);
    for (k, team) in arena.get_teams().iter().enumerate() {
        assert_eq!(team.players().len(), sizes[k]);
        let z = team.area();
        assert_eq!((z.left(), z.right(), z.bottom(), z.top()), (zones[k].left(), zones[k].right(), zones[k].bottom(), zones[k].top()));
        for p in team.players() {
            assert!(z.circle_inside(p.shape()));
            assert_eq!(p.shape().radius(), U as u32 / 2);
        }
    }
    let players = all_players(&arena);
    for i in 0..players.len() {
        for j in 0..players.len() {
            if i != j {
                assert!(!players[i].1.collision_circle(&players[j].1));
            }
        }
        for o in arena.get_obstacles() {
            assert!(!o.shape().collision_circle(&players[i].1));
        }
    }
    let radii: Vec<u32> = arena.get_obstacles().iter().map(|o| o.shape().radius()).collect();
    assert_eq!(radii, vec![U as u32, 2 * U as u32, U as u32 / 2]);
    for o in arena.get_obstacles() {
        assert!(arena.get_area().inside(o.shape().pos()));
    }
}

#[test]
fn same_seed_builds_same_arena() {
    let sizes = vec![5usize, 5];
    let mut rng1 = SmallRng::seed_from_u64(77);
    let mut rng2 = SmallRng::seed_from_u64(77);
    let a1 = build_arena(20 * U, 10 * U, &vec![vec![U, U, U]], 1, 2 * U as u32, &sizes, U as u32, &mut rng1).unwrap();
    let a2 = build_arena(20 * U, 10 * U, &vec![vec![U, U, U]], 1, 2 * U as u32, &sizes, U as u32, &mut rng2).unwrap();
    assert_eq!(layout(&a1), layout(&a2));
}

#[test]
fn crowded_zone_exhausts_the_build() {
    let mut rng = SmallRng::seed_from_u64(5);
    let r = build_arena(10 * U, 10 * U, &vec![vec![]; 100], 1, 1, &vec![60, 1], 3 * U as u32, &mut rng);
    assert_eq!(r.err().unwrap().message(), "could not find a valid initial configuration");
}

#[test]
fn player_wider_than_arena_never_fits() {
    let mut rng = SmallRng::seed_from_u64(5);
    let r = build_arena(10, 10, &vec![vec![]], 1, 1, &vec![0, 1], 11, &mut rng);
    assert_eq!(r.err().unwrap().message(), "could not find a valid initial configuration");
}

#[test]
fn empty_teams_build() {
    let mut rng = SmallRng::seed_from_u64(5);
    let arena = build_arena(10, 10, &vec![vec![5, 5]], 1, 10, &vec![0, 0], 11, &mut rng).unwrap();
    assert!(arena.get_teams().iter().all(|t| t.players().is_empty()));
    assert_eq!((arena.x_max(), arena.y_max()), (10, 10));
}

#[test]
fn obstacle_sizes_are_clamped() {
    let mut rng = SmallRng::seed_from_u64(2);
    let mut arena = Arena::new(100, 100);
    arena.add_obstacles(&vec![-5, 2, 1000, 10], 1, 10, &mut rng).unwrap();
    let radii: Vec<u32> = arena.get_obstacles().iter().map(|o| o.shape().radius()).collect();
    assert_eq!(radii, vec![1, 2, 10, 10]);
}

#[test]
fn obstacle_with_no_room_fails() {
    // A 4 by 4 arena whose single player must stand at the centre and fill it.
    let mut rng = SmallRng::seed_from_u64(11);
    let mut arena = Arena::new(2, 2);
    arena.add_teams(&vec![1], 2, &mut rng).unwrap();
    let e = arena.add_obstacles(&vec![1], 1, 1, &mut rng).err().unwrap();
    assert_eq!(e.message(), "No valid position found for obstacle");
    assert!(arena.get_obstacles().is_empty());
    arena.clear();
    assert!(arena.get_teams().is_empty());
    let area = arena.js_area();
    assert_eq!((area.left(), area.right(), area.bottom(), area.top()), (-2, 2, -2, 2));
}

#[test]
fn team_that_cannot_be_filled_fails() {
    let mut rng = SmallRng::seed_from_u64(4);
    let mut arena = Arena::new(10, 10);
    let e = arena.add_teams(&vec![1, 1], 6, &mut rng).err().unwrap();
    assert_eq!(e.message(), "No valid position found");
    assert!(arena.get_teams().is_empty());
}

#[test]
fn collision_queries() {
    let mut rng = SmallRng::seed_from_u64(8);
    let mut arena = Arena::new(2, 2);
    arena.add_teams(&vec![1], 2, &mut rng).unwrap();
    arena.add_obstacles(&vec![], 1, 1, &mut rng).unwrap();
    let far = Circle::new(Point::new(50, 50), 1);
    let near = Circle::new(Point::new(3, 0), 1);
    assert!(!arena.collision_with_player(&far));
    assert!(arena.collision_with_player(&near));
    assert!(!arena.collision_with_obstacle(&near));
    assert!(arena.get_teams()[0].collision_with_player(&near));
}

#[test]
fn turns_move_to_the_next_living_player() {
    let mut rng = SmallRng::seed_from_u64(3);
    let mut arena = Arena::new(50 * U, 50 * U);
    arena.add_teams(&vec![3, 1], U as u32, &mut rng).unwrap();
    let teams = arena.get_teams_mut();
    let team: &mut Team = &mut teams[0];
    assert!(team.is_alive());
    let first = *team.get_current_player().unwrap().shape().pos();
    assert_eq!(first, *team.players()[0].shape().pos());
    assert!(team.next_player());
    assert_eq!(*team.get_current_player().unwrap().shape().pos(), *team.players()[1].shape().pos());
    assert!(team.next_player());
    assert!(team.next_player());
    assert_eq!(*team.get_current_player().unwrap().shape().pos(), first);
    team.get_current_player_mut().unwrap().set_formula("x^2".to_string());
    assert_eq!(team.players()[0].formula(), "x^2");
    let single: &mut Team = &mut teams[1];
    assert!(!single.next_player());
}

#[test]
fn team_placement_checks() {
    let mut rng = SmallRng::seed_from_u64(6);
    let arena = Arena::new(10 * U, 10 * U);
    let mut team = Team::new(*arena.get_area());
    team.add_players(2, U as u32, &arena, &mut rng).unwrap();
    assert_eq!(team.players().len(), 2);
    let on_first = *team.players()[0].shape();
    assert!(!team.is_valid_pos(&on_first, &arena));
    let outside = Circle::new(Point::new(10 * U, 0), U as u32);
    assert!(!team.is_valid_pos(&outside, &arena));
}

#[test]
fn narrow_zone_never_fits() {
    // A 20 by 10 arena in four zones of 10 by 5: a player of radius 3 fits
    // the arena but none of the zones.
    let mut rng = SmallRng::seed_from_u64(5);
    let r = build_arena(10, 5, &vec![vec![]; 3], 1, 1, &vec![0, 0, 0, 1], 3, &mut rng);
    assert_eq!(r.err().unwrap().message(), "could not find a valid initial configuration");
}

#[test]
fn each_attempt_takes_its_own_size_draws() {
    // In the first attempt an obstacle of radius 50 covers the 4 by 4 arena,
    // so its player finds no room; the second attempt has no obstacle.
    let mut rng = SmallRng::seed_from_u64(12);
    let arena = build_arena(2, 2, &vec![vec![50], vec![]], 1, 50, &vec![1], 2, &mut rng).unwrap();
    assert!(arena.get_obstacles().is_empty());
    assert_eq!(arena.get_teams()[0].players().len(), 1);
}

#[test]
fn obstacles_in_an_empty_arena_always_fit() {
    let mut rng = SmallRng::seed_from_u64(13);
    let mut arena = Arena::new(3, 3);
    arena.add_obstacles(&vec![100, 1, 50, 2, 3], 1, 100, &mut rng).unwrap();
    assert_eq!(arena.get_obstacles().len(), 5);
    for o in arena.get_obstacles() {
        assert!(arena.get_area().inside(o.shape().pos()));
    }
}
