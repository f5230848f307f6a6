use graph_fight::game::{Game, Player, Team, Type};
use graph_fight::geometry::{Circle, Point, Rectangle};

/// Grid steps per unit of length.
const U: i32 = 1000;

#[test]
fn game_test_valid_pos() {
    let game = Game::new(10 * U, 10 * U, &vec![], 0, 0, U / 10, 0).unwrap();

    let pos = vec![
        ((0, 0), true),
        ((5 * U, 5 * U), true),
        ((-5 * U, 5 * U), true),
        ((-5 * U, -5 * U), true),
        ((5 * U, -5 * U), true),
        ((20 * U, 20 * U), false),
        ((-20 * U, 20 * U), false),
        ((-20 * U, -20 * U), false),
        ((20 * U, -20 * U), false),
        ((7 * U, 0), false),
        ((7 * U, 7 * U), false),
    ];

    for (p, r) in pos {
        let c = Circle::new(p.into(), 4 * U as u32);
        assert_eq!(game.is_valid_pos(&c, &Type::Player), r);
    }
}

#[test]
fn test_build() {
    // Two obstacles of radius 0.1, the mean size for a size bound of 0.2.
    let game = Game::new(20 * U, 10 * U, &vec![U / 10, U / 10], 4, 4, U / 2, 0);
    game.unwrap();
}

#[test]
fn built_game_keeps_its_rules() {
    let game = Game::new(20 * U, 10 * U, &vec![U / 10, U / 5, U], 4, 5, U / 2, 42).unwrap();
    let a = game.team_a_s();
    let b = game.team_b_s();
    let obstacles = game.obstacles_s();
    assert_eq!((a.len(), b.len(), obstacles.len()), (4, 5, 3));
    assert!(game.explosions_s().is_empty());
    let arena = game.arena_s();
    assert_eq!((arena.left(), arena.right(), arena.bottom(), arena.top()), (-20 * U, 20 * U, -10 * U, 10 * U));
    for p in &a {
        assert!(p.shape().pos().x <= 0 && p.alive());
        assert!(arena.circle_inside(p.shape()));
    }
    for p in &b {
        assert!(p.shape().pos().x >= 0);
        assert!(arena.circle_inside(p.shape()));
    }
    let all: Vec<&Player> = a.iter().chain(b.iter()).collect();
    for i in 0..all.len() {
        for j in 0..all.len() {
            if i != j {
                assert!(!all[i].shape().collision_circle(all[j].shape()));
            }
        }
        for o in &obstacles {
            assert!(!o.collision_circle(all[i].shape()));
        }
    }
    assert_eq!(obstacles[2].radius(), U as u32);
    // An obstacle may stand on players' ground only where no player is.
    assert!(!game.is_valid_pos(a[0].shape(), &Type::Obstacle));
}

#[test]
fn game_rejects_bad_configuration() {
    let e = Game::new(0, 10, &vec![], 1, 1, 1, 0).err().unwrap();
    assert_eq!(e, "x_max and y_max must have a positive value");
    let e = Game::new(10, -1, &vec![], 1, 1, 1, 0).err().unwrap();
    assert_eq!(e, "x_max and y_max must have a positive value");
    let e = Game::new(10, 10, &vec![], 1, 1, 0, 0).err().unwrap();
    assert_eq!(e, "Obstacle size and player radius must be a positive value");
    let e = Game::new(10, 10, &vec![3, -1], 1, 1, 1, 0).err().unwrap();
    assert_eq!(e, "Obstacle size and player radius must be a positive value");
}

#[test]
fn game_fails_when_players_cannot_fit() {
    let e = Game::new(10, 10, &vec![], 1, 0, 11, 0).err().unwrap();
    assert_eq!(e, "No valid position found");
}

#[test]
fn same_seed_gives_same_game() {
    let g1 = Game::new(20 * U, 10 * U, &vec![U, U], 3, 3, U / 2, 9).unwrap();
    let g2 = Game::new(20 * U, 10 * U, &vec![U, U], 3, 3, U / 2, 9).unwrap();
    let centres = |g: &Game| -> Vec<Point> {
        let mut v: Vec<Point> = g.team_a_s().iter().map(|p| *p.shape().pos()).collect();
        v.extend(g.team_b_s().iter().map(|p| *p.shape().pos()));
        v.extend(g.obstacles_s().iter().map(|c| *c.pos()));
        v
    };
    assert_eq!(centres(&g1), centres(&g2));
}

#[test]
fn player_accessors() {
    let mut p = Player::new(Point::new(1, 2), 3);
    assert!(p.alive());
    assert_eq!(p.formula(), "");
    p.set_formula("sin(x)".to_string());
    assert_eq!(p.formula(), "sin(x)");
    assert_eq!(p.formula_js(), "sin(x)");
    assert_eq!(p.shape_js().radius(), 3);
    let q = Player::from_circle(Circle::new(Point::new(0, 0), 1));
    assert_eq!(q.duplicate().shape().radius(), 1);
}

#[test]
fn team_turns() {
    let team = Team::new(Rectangle::new(Point::new(0, 0), 10, 10));
    assert!(!team.is_alive());
    assert!(team.players().is_empty());
    assert_eq!(team.area().width(), 10);
}

#[test]
fn game_without_players_always_builds() {
    let game = Game::new(3, 3, &vec![100, 1, 2], 0, 0, 5, 1).unwrap();
    assert_eq!(game.obstacles_s().len(), 3);
}
