pub mod arena;
pub mod obstacle;
pub mod player;
pub mod team;

pub use self::arena::{build_arena, Arena, ArenaModel};
pub use self::obstacle::Obstacle;
pub use self::player::{Player, PlayerModel};
pub use self::team::{Team, TeamModel};

use crate::geometry::{
    lemma_collides_symmetric, Circle, CircleModel, Point, Range, RectModel, Rectangle,
};
use crate::random::rng_from_seed;
use rand::rngs::SmallRng;
use vstd::prelude::*;

verus! {

/// Attempts of a single placement search in a two-team game.
const MAX_ATTEMPTS: u64 = 100;

/// The kind of entity a placement is sought for: the two kinds obey
/// different rules.
#[derive(Clone, Copy, Debug, PartialEq, Eq, Structural)]
pub enum Type {
    Player,
    Obstacle,
}

/// No two players of `s` collide.
pub open spec fn players_apart(s: Seq<PlayerModel>) -> bool {
    forall|i: int, j: int|
        0 <= i < s.len() && 0 <= j < s.len() && i != j ==> !(#[trigger] s[i].shape.collides(
            s[j].shape,
        ))
}

/// No player of `s` collides with a player of `t`.
pub open spec fn teams_apart(s: Seq<PlayerModel>, t: Seq<PlayerModel>) -> bool {
    forall|i: int, j: int|
        0 <= i < s.len() && 0 <= j < t.len() ==> !(#[trigger] s[i].shape.collides(t[j].shape))
}

/// No player of `s` collides with an obstacle of `obstacles`.
pub open spec fn clear_of(s: Seq<PlayerModel>, obstacles: Seq<CircleModel>) -> bool {
    forall|i: int, o: int|
        0 <= i < s.len() && 0 <= o < obstacles.len() ==> !(#[trigger] obstacles[o].collides(
            s[i].shape,
        ))
}

/// Every player of `s` lies wholly inside `area`.
pub open spec fn all_inside(s: Seq<PlayerModel>, area: RectModel) -> bool {
    forall|i: int| 0 <= i < s.len() ==> area.contains_circle(#[trigger] s[i].shape)
}

/// The player radius and every obstacle radius are positive.
pub open spec fn radii_positive(obstacle_radii: Seq<i32>, player_radius: int) -> bool {
    player_radius > 0 && forall|k: int| 0 <= k < obstacle_radii.len() ==> #[trigger] obstacle_radii[k] > 0
}

/// A configuration that a two-team game accepts: positive half extents and
/// positive radii.
pub open spec fn valid_config(x_max: int, y_max: int, obstacle_radii: Seq<i32>, player_radius: int) -> bool {
    x_max > 0 && y_max > 0 && radii_positive(obstacle_radii, player_radius)
}

/// What a two-team game is: its two teams, its obstacles and explosions, and
/// the arena's bounds.
pub ghost struct GameModel {
    pub team_a: Seq<PlayerModel>,
    pub team_b: Seq<PlayerModel>,
    pub obstacles: Seq<CircleModel>,
    pub explosions: Seq<CircleModel>,
    pub arena: RectModel,
}

impl GameModel {
    /// Some player of either team collides with `c`.
    pub open spec fn player_collides(self, c: CircleModel) -> bool {
        (exists|i: int| 0 <= i < self.team_a.len() && #[trigger] self.team_a[i].shape.collides(c))
            || (exists|i: int|
            0 <= i < self.team_b.len() && #[trigger] self.team_b[i].shape.collides(c))
    }

    /// Some obstacle collides with `c`.
    pub open spec fn obstacle_collides(self, c: CircleModel) -> bool {
        exists|o: int| 0 <= o < self.obstacles.len() && #[trigger] self.obstacles[o].collides(c)
    }

    /// Where an entity of the given kind may stand: clear of every player;
    /// a player must also keep clear of the obstacles and lie wholly inside
    /// the arena, while an obstacle may overlap obstacles and edges.
    pub open spec fn valid_spot(self, c: CircleModel, kind: Type) -> bool {
        &&& !self.player_collides(c)
        &&& kind == Type::Player ==> {
            &&& !self.obstacle_collides(c)
            &&& self.arena.contains_point(c.x, c.y)
            &&& self.arena.contains_circle(c)
        }
    }

    /// Neither team holds a player yet.
    pub open spec fn no_players(self) -> bool {
        self.team_a.len() == 0 && self.team_b.len() == 0
    }

    /// What a new game holds: the placement rules; the arena of the given
    /// half extents; the requested number of living players of the given
    /// radius in each team, team A on the left half and team B on the right;
    /// one obstacle per radius, with that radius and its centre in the arena;
    /// and no explosion.
    pub open spec fn is_set_up(
        self,
        x_max: int,
        y_max: int,
        obstacle_radii: Seq<i32>,
        num_players_a: int,
        num_players_b: int,
        player_radius: int,
    ) -> bool {
        &&& self.placement_ok()
        &&& self.arena == (RectModel { left: -x_max, right: x_max, bottom: -y_max, top: y_max })
        &&& self.team_a.len() == num_players_a
        &&& self.team_b.len() == num_players_b
        &&& forall|i: int|
            #![trigger self.team_a[i]]
            0 <= i < num_players_a ==> self.team_a[i].shape.r == player_radius
                && self.team_a[i].shape.x <= 0 && self.team_a[i].alive
        &&& forall|i: int|
            #![trigger self.team_b[i]]
            0 <= i < num_players_b ==> self.team_b[i].shape.r == player_radius
                && self.team_b[i].shape.x >= 0 && self.team_b[i].alive
        &&& self.obstacles.len() == obstacle_radii.len()
        &&& forall|k: int|
            #![trigger self.obstacles[k]]
            0 <= k < obstacle_radii.len() ==> self.obstacles[k].r == obstacle_radii[k]
                && self.arena.contains_point(self.obstacles[k].x, self.obstacles[k].y)
        &&& self.explosions.len() == 0
    }

    /// The placement rules hold of everything placed so far.
    pub open spec fn placement_ok(self) -> bool {
        &&& players_apart(self.team_a)
        &&& players_apart(self.team_b)
        &&& teams_apart(self.team_a, self.team_b)
        &&& clear_of(self.team_a, self.obstacles)
        &&& clear_of(self.team_b, self.obstacles)
        &&& all_inside(self.team_a, self.arena)
        &&& all_inside(self.team_b, self.arena)
    }
}

/// A two-team game: team A on the left half of the arena, team B on the
/// right half, and obstacles anywhere clear of the players.
pub struct Game {
    team_a: Vec<Player>,
    team_b: Vec<Player>,
    obstacles: Vec<Circle>,
    explosions: Vec<Circle>,
    arena: Rectangle,
    rng: SmallRng,
}

impl View for Game {
    type V = GameModel;

    closed spec fn view(&self) -> GameModel {
        GameModel {
            team_a: self.team_a@.map_values(|p: Player| p@),
            team_b: self.team_b@.map_values(|p: Player| p@),
            obstacles: self.obstacles@.map_values(|c: Circle| c@),
            explosions: self.explosions@.map_values(|c: Circle| c@),
            arena: self.arena@,
        }
    }
}

impl Game {
    /// A game in an arena spanning `-x_max..=x_max` by `-y_max..=y_max`, with
    /// `num_players_a` players of radius `player_radius` placed on the left
    /// half, `num_players_b` on the right half, then one obstacle per entry of
    /// `obstacle_radii`, each with that radius. Placements draw from a
    /// generator seeded with `seed`.
    pub fn new(
        x_max: i32,
        y_max: i32,
        obstacle_radii: &Vec<i32>,
        num_players_a: usize,
        num_players_b: usize,
        player_radius: i32,
        seed: u64,
    ) -> (r: Result<Game, String>)
        ensures
            !(x_max > 0 && y_max > 0) ==> (r matches Err(e) && e@
                == "x_max and y_max must have a positive value"@),
            x_max > 0 && y_max > 0 && !radii_positive(obstacle_radii@, player_radius as int) ==> (
            r matches Err(e) && e@ == "Obstacle size and player radius must be a positive value"@),
            valid_config(x_max as int, y_max as int, obstacle_radii@, player_radius as int) ==> (
            r matches Err(e) ==> e@ == "No valid position found"@),
            valid_config(x_max as int, y_max as int, obstacle_radii@, player_radius as int)
                && num_players_a == 0 && num_players_b == 0 ==> r is Ok,
            r matches Ok(g) ==> g@.is_set_up(
                x_max as int,
                y_max as int,
                obstacle_radii@,
                num_players_a as int,
                num_players_b as int,
                player_radius as int,
            ),
    {
        Game::new_with_rng(
            x_max,
            y_max,
            obstacle_radii,
            num_players_a,
            num_players_b,
            player_radius,
            rng_from_seed(seed),
        )
    }

    /// The same game as `new`, with placements drawn from `rng`: a caller that
    /// drew the obstacle radii from the generator hands it on here, so that
    /// the whole set-up uses one stream.
    pub fn new_with_rng(
        x_max: i32,
        y_max: i32,
        obstacle_radii: &Vec<i32>,
        num_players_a: usize,
        num_players_b: usize,
        player_radius: i32,
        rng: SmallRng,
    ) -> (r: Result<Game, String>)
        ensures
            !(x_max > 0 && y_max > 0) ==> (r matches Err(e) && e@
                == "x_max and y_max must have a positive value"@),
            x_max > 0 && y_max > 0 && !radii_positive(obstacle_radii@, player_radius as int) ==> (
            r matches Err(e) && e@ == "Obstacle size and player radius must be a positive value"@),
            valid_config(x_max as int, y_max as int, obstacle_radii@, player_radius as int) ==> (
            r matches Err(e) ==> e@ == "No valid position found"@),
            valid_config(x_max as int, y_max as int, obstacle_radii@, player_radius as int)
                && num_players_a == 0 && num_players_b == 0 ==> r is Ok,
            r matches Ok(g) ==> g@.is_set_up(
                x_max as int,
                y_max as int,
                obstacle_radii@,
                num_players_a as int,
                num_players_b as int,
                player_radius as int,
            ),
    {
        if x_max <= 0 || y_max <= 0 {
            return Err("x_max and y_max must have a positive value".to_owned());
        }
        let mut k: usize = 0;
        let mut radii_ok = player_radius > 0;
        while k < obstacle_radii.len()
            invariant
                0 <= k <= obstacle_radii.len(),
                radii_ok == (player_radius > 0 && forall|j: int|
                    0 <= j < k ==> #[trigger] obstacle_radii@[j] > 0),
            decreases obstacle_radii.len() - k,
        {
            if obstacle_radii[k] <= 0 {
                radii_ok = false;
            }
            k += 1;
        }
        if !radii_ok {
            return Err("Obstacle size and player radius must be a positive value".to_owned());
        }
        let mut game = Game {
            team_a: Vec::new(),
            team_b: Vec::new(),
            obstacles: Vec::new(),
            explosions: Vec::new(),
            arena: Rectangle::new(Point::new(0, 0), 2 * x_max as u32, 2 * y_max as u32),
            rng,
        };
        proof {
            assert(game@.team_a =~= Seq::empty());
            assert(game@.team_b =~= Seq::empty());
            assert(game@.obstacles =~= Seq::empty());
            assert(game@.explosions =~= Seq::empty());
        }
        // May fail if the player radius is too big
        match game.create_team(num_players_a, num_players_b, player_radius as u32) {
            Ok(()) => {},
            Err(e) => {
                return Err(e);
            },
        }
        match game.create_obstables(obstacle_radii) {
            Ok(()) => {},
            Err(e) => {
                return Err(e);
            },
        }
        proof {
            assert(game@.obstacles.subrange(0, 0) =~= Seq::<CircleModel>::empty());
        }
        Ok(game)
    }

    pub fn team_a_s(&self) -> (r: Vec<Player>)
        ensures
            r@.map_values(|p: Player| p@) == self@.team_a,
    {
        copy_players(&self.team_a)
    }

    pub fn team_b_s(&self) -> (r: Vec<Player>)
        ensures
            r@.map_values(|p: Player| p@) == self@.team_b,
    {
        copy_players(&self.team_b)
    }

    pub fn obstacles_s(&self) -> (r: Vec<Circle>)
        ensures
            r@.map_values(|c: Circle| c@) == self@.obstacles,
    {
        copy_circles(&self.obstacles)
    }

    pub fn explosions_s(&self) -> (r: Vec<Circle>)
        ensures
            r@.map_values(|c: Circle| c@) == self@.explosions,
    {
        copy_circles(&self.explosions)
    }

    pub fn arena_s(&self) -> (r: Rectangle)
        ensures
            r@ == self@.arena,
    {
        self.arena
    }

    /// Place the players of team A on the left half of the arena, then those
    /// of team B on the right half.
    fn create_team(&mut self, num_players_a: usize, num_players_b: usize, player_radius: u32) -> (r:
        Result<(), String>)
        requires
            player_radius > 0,
            old(self)@.placement_ok(),
            old(self)@.arena.left <= 0 <= old(self)@.arena.right,
        ensures
            final(self)@.placement_ok(),
            final(self)@.arena == old(self)@.arena,
            final(self)@.obstacles == old(self)@.obstacles,
            final(self)@.explosions == old(self)@.explosions,
            old(self)@.team_a.len() <= final(self)@.team_a.len(),
            old(self)@.team_b.len() <= final(self)@.team_b.len(),
            forall|i: int|
                #![trigger final(self)@.team_a[i]]
                old(self)@.team_a.len() <= i < final(self)@.team_a.len() ==> final(self)@.team_a[i].shape.r == player_radius && final(self)@.team_a[i].shape.x <= 0
                    && final(self)@.team_a[i].alive,
            forall|i: int|
                #![trigger final(self)@.team_b[i]]
                old(self)@.team_b.len() <= i < final(self)@.team_b.len() ==> final(self)@.team_b[i].shape.r == player_radius && final(self)@.team_b[i].shape.x >= 0
                    && final(self)@.team_b[i].alive,
            forall|i: int|
                #![trigger old(self)@.team_a[i]]
                0 <= i < old(self)@.team_a.len() ==> final(self)@.team_a[i] == old(self)@.team_a[i],
            forall|i: int|
                #![trigger old(self)@.team_b[i]]
                0 <= i < old(self)@.team_b.len() ==> final(self)@.team_b[i] == old(self)@.team_b[i],
            r is Ok ==> final(self)@.team_a.len() == old(self)@.team_a.len() + num_players_a
                && final(self)@.team_b.len() == old(self)@.team_b.len() + num_players_b,
            r matches Err(e) ==> e@ == "No valid position found"@,
            num_players_a == 0 && num_players_b == 0 ==> r is Ok,
    {
        let ghost start = self@;
        // Vertical range is the same for both sides
        let p_range_y = self.arena.range_v();
        // Players of team A go on the left side
        let p_a_range_x = Range::new(self.arena.left(), 0);
        let mut k: usize = 0;
        while k < num_players_a
            invariant
                start == old(self)@,
                player_radius > 0,
                p_range_y@ == (start.arena.bottom, start.arena.top),
                p_a_range_x@ == (start.arena.left, 0int),
                0 <= k <= num_players_a,
                self@.placement_ok(),
                self@.arena == start.arena,
                self@.obstacles == start.obstacles,
                self@.explosions == start.explosions,
                self@.team_b == start.team_b,
                self@.team_a.len() == start.team_a.len() + k,
                forall|i: int|
                    #![trigger self@.team_a[i]]
                    start.team_a.len() <= i < self@.team_a.len() ==> self@.team_a[i].shape.r
                        == player_radius && self@.team_a[i].shape.x <= 0 && self@.team_a[i].alive,
                forall|i: int|
                    #![trigger start.team_a[i]]
                    0 <= i < start.team_a.len() ==> self@.team_a[i] == start.team_a[i],
            decreases num_players_a - k,
        {
            let shape = match self.find_random_pos(
                &p_a_range_x,
                &p_range_y,
                player_radius,
                &Type::Player,
            ) {
                Ok(c) => c,
                Err(e) => {
                    return Err(e);
                },
            };
            let ghost before = self@;
            let new_player = Player::from_circle(shape);
            self.team_a.push(new_player);
            proof {
                assert(self@.team_a =~= before.team_a.push(new_player@));
                assert(self@.team_b =~= before.team_b);
                lemma_push_team_a(before, shape@);
            }
            k += 1;
        }
        // Players of team B go on the right side
        let p_b_range_x = Range::new(0, self.arena.right());
        let ghost middle = self@;
        let mut k: usize = 0;
        while k < num_players_b
            invariant
                start == old(self)@,
                player_radius > 0,
                p_range_y@ == (start.arena.bottom, start.arena.top),
                p_b_range_x@ == (0int, start.arena.right),
                0 <= k <= num_players_b,
                self@.placement_ok(),
                self@.arena == start.arena,
                self@.obstacles == start.obstacles,
                self@.explosions == start.explosions,
                self@.team_a == middle.team_a,
                middle.team_a.len() == start.team_a.len() + num_players_a,
                forall|i: int|
                    #![trigger middle.team_a[i]]
                    start.team_a.len() <= i < middle.team_a.len() ==> middle.team_a[i].shape.r
                        == player_radius && middle.team_a[i].shape.x <= 0
                        && middle.team_a[i].alive,
                forall|i: int|
                    #![trigger start.team_a[i]]
                    0 <= i < start.team_a.len() ==> middle.team_a[i] == start.team_a[i],
                self@.team_b.len() == start.team_b.len() + k,
                forall|i: int|
                    #![trigger self@.team_b[i]]
                    start.team_b.len() <= i < self@.team_b.len() ==> self@.team_b[i].shape.r
                        == player_radius && self@.team_b[i].shape.x >= 0 && self@.team_b[i].alive,
                forall|i: int|
                    #![trigger start.team_b[i]]
                    0 <= i < start.team_b.len() ==> self@.team_b[i] == start.team_b[i],
            decreases num_players_b - k,
        {
            let shape = match self.find_random_pos(
                &p_b_range_x,
                &p_range_y,
                player_radius,
                &Type::Player,
            ) {
                Ok(c) => c,
                Err(e) => {
                    return Err(e);
                },
            };
            let ghost before = self@;
            let new_player = Player::from_circle(shape);
            self.team_b.push(new_player);
            proof {
                assert(self@.team_b =~= before.team_b.push(new_player@));
                assert(self@.team_a =~= before.team_a);
                lemma_push_team_b(before, shape@);
            }
            k += 1;
        }
        Ok(())
    }

    /// Place one obstacle per entry of `obstacle_radii`, anywhere in the arena
    /// where it collides with no player.
    fn create_obstables(&mut self, obstacle_radii: &Vec<i32>) -> (r: Result<(), String>)
        requires
            forall|k: int| 0 <= k < obstacle_radii.len() ==> #[trigger] obstacle_radii@[k] > 0,
            old(self)@.placement_ok(),
        ensures
            final(self)@.placement_ok(),
            final(self)@.arena == old(self)@.arena,
            final(self)@.team_a == old(self)@.team_a,
            final(self)@.team_b == old(self)@.team_b,
            final(self)@.explosions == old(self)@.explosions,
            final(self)@.obstacles.len() <= old(self)@.obstacles.len() + obstacle_radii.len(),
            old(self)@.obstacles.len() <= final(self)@.obstacles.len(),
            final(self)@.obstacles.subrange(0, old(self)@.obstacles.len() as int)
                == old(self)@.obstacles,
            forall|k: int|
                #![trigger final(self)@.obstacles[k]]
                old(self)@.obstacles.len() <= k < final(self)@.obstacles.len() ==> final(self)@.obstacles[k].r == obstacle_radii@[k - old(self)@.obstacles.len()] && final(self)@.arena.contains_point(final(self)@.obstacles[k].x, final(self)@.obstacles[k].y),
            r is Ok ==> final(self)@.obstacles.len() == old(self)@.obstacles.len()
                + obstacle_radii.len(),
            r matches Err(e) ==> e@ == "No valid position found"@,
            old(self)@.no_players() ==> r is Ok,
    {
        let ghost start = self@;
        let range_x = self.arena.range_h();
        let range_y = self.arena.range_v();
        let mut k: usize = 0;
        while k < obstacle_radii.len()
            invariant
                start == old(self)@,
                forall|j: int| 0 <= j < obstacle_radii.len() ==> #[trigger] obstacle_radii@[j] > 0,
                range_x@ == (start.arena.left, start.arena.right),
                range_y@ == (start.arena.bottom, start.arena.top),
                0 <= k <= obstacle_radii.len(),
                self@.placement_ok(),
                self@.arena == start.arena,
                self@.team_a == start.team_a,
                self@.team_b == start.team_b,
                self@.explosions == start.explosions,
                self@.obstacles.len() == start.obstacles.len() + k,
                self@.obstacles.subrange(0, start.obstacles.len() as int) == start.obstacles,
                forall|j: int|
                    #![trigger self@.obstacles[j]]
                    start.obstacles.len() <= j < self@.obstacles.len() ==> self@.obstacles[j].r
                        == obstacle_radii@[j - start.obstacles.len()]
                        && self@.arena.contains_point(self@.obstacles[j].x, self@.obstacles[j].y),
            decreases obstacle_radii.len() - k,
        {
            let obstacle_size = obstacle_radii[k];
            assert(obstacle_radii@[k as int] > 0);
            let shape = match self.find_random_pos(
                &range_x,
                &range_y,
                obstacle_size as u32,
                &Type::Obstacle,
            ) {
                Ok(c) => c,
                Err(e) => {
                    return Err(e);
                },
            };
            let ghost before = self@;
            self.obstacles.push(shape);
            proof {
                assert(self@.obstacles =~= before.obstacles.push(shape@));
                lemma_push_obstacle(before, shape@);
                assert(self@.obstacles.subrange(0, start.obstacles.len() as int)
                    =~= start.obstacles);
            }
            k += 1;
        }
        Ok(())
    }

    /// True if an entity of the kind `pos_type` may stand at `shape`.
    pub fn is_valid_pos(&self, shape: &Circle, pos_type: &Type) -> (r: bool)
        ensures
            r == self@.valid_spot(shape@, *pos_type),
    {
        proof {
            assert forall|i: int| 0 <= i < self.team_a@.len() implies #[trigger] self@.team_a[i]
                == self.team_a@[i]@ by {}
            assert forall|i: int| 0 <= i < self.team_b@.len() implies #[trigger] self@.team_b[i]
                == self.team_b@[i]@ by {}
            assert forall|o: int| 0 <= o < self.obstacles@.len() implies #[trigger] self@.obstacles[o]
                == self.obstacles@[o]@ by {}
        }
        // Collision with players from team A
        if collides_with_any_player(&self.team_a, shape) {
            proof {
                let i = choose|i: int|
                    0 <= i < self.team_a@.len() && #[trigger] self.team_a@[i]@.shape.collides(shape@);
                assert(self@.team_a[i].shape.collides(shape@));
            }
            return false;
        }
        // Collision with players from team B
        if collides_with_any_player(&self.team_b, shape) {
            proof {
                let i = choose|i: int|
                    0 <= i < self.team_b@.len() && #[trigger] self.team_b@[i]@.shape.collides(shape@);
                assert(self@.team_b[i].shape.collides(shape@));
            }
            return false;
        }
        match pos_type {
            Type::Player => {
                // Collision with obstacles
                if collides_with_any_circle(&self.obstacles, shape) {
                    proof {
                        let o = choose|o: int|
                            0 <= o < self.obstacles@.len() && #[trigger] self.obstacles@[o]@.collides(
                                shape@,
                            );
                        assert(self@.obstacles[o].collides(shape@));
                    }
                    return false;
                }
                let pos = shape.pos();
                if !self.arena.inside(pos) {
                    return false;
                }
                self.arena.circle_inside(shape)
            },
            // Obstacles can collide with anything that is not a player
            Type::Obstacle => true,
        }
    }

    /// A circle of radius `radius`, centred in the two ranges, where an
    /// entity of the kind `pos_type` may stand.
    fn find_random_pos(&mut self, x_range: &Range, y_range: &Range, radius: u32, pos_type: &Type) -> (r:
        Result<Circle, String>)
        requires
            radius > 0,
        ensures
            final(self)@ == old(self)@,
            r matches Ok(c) ==> {
                &&& c@.r == radius
                &&& x_range@.0 <= c@.x <= x_range@.1
                &&& y_range@.0 <= c@.y <= y_range@.1
                &&& old(self)@.valid_spot(c@, *pos_type)
            },
            r matches Err(e) ==> e@ == "No valid position found"@,
            *pos_type == Type::Obstacle && old(self)@.no_players() ==> r is Ok,
    {
        let mut k: u64 = 0;
        while k < MAX_ATTEMPTS
            invariant
                radius > 0,
                self@ == old(self)@,
                k > 0 ==> !(*pos_type == Type::Obstacle && self@.no_players()),
            decreases MAX_ATTEMPTS - k,
        {
            let pos = Point::random(x_range, y_range, &mut self.rng);
            let shape = Circle::new(pos, radius);
            if self.is_valid_pos(&shape, pos_type) {
                return Ok(shape);
            }
            k += 1;
        }
        Err("No valid position found".to_owned())
    }
}

/// True if `shape` collides with a player of `players`.
fn collides_with_any_player(players: &Vec<Player>, shape: &Circle) -> (r: bool)
    ensures
        r == exists|i: int|
            0 <= i < players@.len() && #[trigger] players@[i]@.shape.collides(shape@),
{
    let mut i: usize = 0;
    while i < players.len()
        invariant
            0 <= i <= players.len(),
            forall|j: int| 0 <= j < i ==> !(#[trigger] players@[j]@.shape.collides(shape@)),
        decreases players.len() - i,
    {
        if players[i].shape().collision_circle(shape) {
            assert(players@[i as int]@.shape.collides(shape@));
            return true;
        }
        i += 1;
    }
    false
}

/// True if `shape` collides with a circle of `circles`.
fn collides_with_any_circle(circles: &Vec<Circle>, shape: &Circle) -> (r: bool)
    ensures
        r == exists|o: int|
            0 <= o < circles@.len() && #[trigger] circles@[o]@.collides(shape@),
{
    let mut o: usize = 0;
    while o < circles.len()
        invariant
            0 <= o <= circles.len(),
            forall|j: int| 0 <= j < o ==> !(#[trigger] circles@[j]@.collides(shape@)),
        decreases circles.len() - o,
    {
        if circles[o].collision_circle(shape) {
            assert(circles@[o as int]@.collides(shape@));
            return true;
        }
        o += 1;
    }
    false
}

/// A copy of each player, in order.
fn copy_players(players: &Vec<Player>) -> (r: Vec<Player>)
    ensures
        r@.map_values(|p: Player| p@) == players@.map_values(|p: Player| p@),
{
    let mut r: Vec<Player> = Vec::new();
    let mut i: usize = 0;
    while i < players.len()
        invariant
            0 <= i <= players.len(),
            r@.len() == i,
            forall|j: int| 0 <= j < i ==> (#[trigger] r@[j])@ == players@[j]@,
        decreases players.len() - i,
    {
        r.push(players[i].duplicate());
        i += 1;
    }
    assert(r@.map_values(|p: Player| p@) =~= players@.map_values(|p: Player| p@));
    r
}

/// A copy of each circle, in order.
fn copy_circles(circles: &Vec<Circle>) -> (r: Vec<Circle>)
    ensures
        r@.map_values(|c: Circle| c@) == circles@.map_values(|c: Circle| c@),
{
    let mut r: Vec<Circle> = Vec::new();
    let mut i: usize = 0;
    while i < circles.len()
        invariant
            0 <= i <= circles.len(),
            r@.len() == i,
            forall|j: int| 0 <= j < i ==> (#[trigger] r@[j])@ == circles@[j]@,
        decreases circles.len() - i,
    {
        r.push(circles[i]);
        i += 1;
    }
    assert(r@.map_values(|c: Circle| c@) =~= circles@.map_values(|c: Circle| c@));
    r
}

/// Collision between teams does not depend on which team is named first.
proof fn lemma_teams_apart_symmetric(s: Seq<PlayerModel>, t: Seq<PlayerModel>)
    requires
        teams_apart(s, t),
    ensures
        teams_apart(t, s),
{
    assert forall|i: int, j: int| 0 <= i < t.len() && 0 <= j < s.len() implies !(
    #[trigger] t[i].shape.collides(s[j].shape)) by {
        lemma_collides_symmetric(t[i].shape, s[j].shape);
    }
}

/// A team `s` that keeps the placement rules, beside the other team `t`, the
/// obstacles and the arena, still keeps them after a player is added at a spot
/// clear of both teams and of the obstacles, and inside the arena.
proof fn lemma_push_player(
    s: Seq<PlayerModel>,
    t: Seq<PlayerModel>,
    obstacles: Seq<CircleModel>,
    arena: RectModel,
    c: CircleModel,
)
    requires
        players_apart(s),
        teams_apart(s, t),
        clear_of(s, obstacles),
        all_inside(s, arena),
        forall|i: int| 0 <= i < s.len() ==> !(#[trigger] s[i].shape.collides(c)),
        forall|j: int| 0 <= j < t.len() ==> !(#[trigger] t[j].shape.collides(c)),
        forall|o: int| 0 <= o < obstacles.len() ==> !(#[trigger] obstacles[o].collides(c)),
        arena.contains_circle(c),
    ensures
        ({
            let u = s.push(PlayerModel { shape: c, alive: true, formula: Seq::empty() });
            &&& players_apart(u)
            &&& teams_apart(u, t)
            &&& teams_apart(t, u)
            &&& clear_of(u, obstacles)
            &&& all_inside(u, arena)
        }),
{
    let u = s.push(PlayerModel { shape: c, alive: true, formula: Seq::empty() });
    let n = s.len() as int;
    assert forall|i: int, j: int|
        0 <= i < u.len() && 0 <= j < u.len() && i != j implies !(#[trigger] u[i].shape.collides(
        u[j].shape,
    )) by {
        if i == n {
            assert(!s[j].shape.collides(c));
            lemma_collides_symmetric(c, s[j].shape);
        } else if j == n {
            assert(!s[i].shape.collides(c));
        } else {
            assert(u[i] == s[i] && u[j] == s[j]);
        }
    }
    assert forall|i: int, j: int| 0 <= i < u.len() && 0 <= j < t.len() implies !(
    #[trigger] u[i].shape.collides(t[j].shape)) by {
        if i == n {
            assert(!t[j].shape.collides(c));
            lemma_collides_symmetric(c, t[j].shape);
        } else {
            assert(u[i] == s[i]);
        }
    }
    lemma_teams_apart_symmetric(u, t);
    assert forall|i: int, o: int| 0 <= i < u.len() && 0 <= o < obstacles.len() implies !(
    #[trigger] obstacles[o].collides(u[i].shape)) by {
        if i < n {
            assert(u[i] == s[i]);
        }
    }
    assert forall|i: int| 0 <= i < u.len() implies arena.contains_circle(#[trigger] u[i].shape) by {
        if i < n {
            assert(u[i] == s[i]);
        }
    }
}

/// The placement rules still hold after a player of team A is added at a
/// valid spot.
proof fn lemma_push_team_a(g: GameModel, c: CircleModel)
    requires
        g.placement_ok(),
        g.valid_spot(c, Type::Player),
    ensures
        (GameModel {
            team_a: g.team_a.push(PlayerModel { shape: c, alive: true, formula: Seq::empty() }),
            ..g
        }).placement_ok(),
{
    lemma_push_player(g.team_a, g.team_b, g.obstacles, g.arena, c);
}

/// The placement rules still hold after a player of team B is added at a
/// valid spot.
proof fn lemma_push_team_b(g: GameModel, c: CircleModel)
    requires
        g.placement_ok(),
        g.valid_spot(c, Type::Player),
    ensures
        (GameModel {
            team_b: g.team_b.push(PlayerModel { shape: c, alive: true, formula: Seq::empty() }),
            ..g
        }).placement_ok(),
{
    lemma_teams_apart_symmetric(g.team_a, g.team_b);
    lemma_push_player(g.team_b, g.team_a, g.obstacles, g.arena, c);
}

/// The placement rules still hold after an obstacle that collides with no
/// player is added.
proof fn lemma_push_obstacle(g: GameModel, c: CircleModel)
    requires
        g.placement_ok(),
        !g.player_collides(c),
    ensures
        (GameModel { obstacles: g.obstacles.push(c), ..g }).placement_ok(),
{
    let obs = g.obstacles.push(c);
    let n = g.obstacles.len() as int;
    assert forall|i: int, o: int| 0 <= i < g.team_a.len() && 0 <= o < obs.len() implies !(
    #[trigger] obs[o].collides(g.team_a[i].shape)) by {
        if o == n {
            assert(!g.team_a[i].shape.collides(c));
            lemma_collides_symmetric(c, g.team_a[i].shape);
        } else {
            assert(obs[o] == g.obstacles[o]);
        }
    }
    assert forall|i: int, o: int| 0 <= i < g.team_b.len() && 0 <= o < obs.len() implies !(
    #[trigger] obs[o].collides(g.team_b[i].shape)) by {
        if o == n {
            assert(!g.team_b[i].shape.collides(c));
            lemma_collides_symmetric(c, g.team_b[i].shape);
        } else {
            assert(obs[o] == g.obstacles[o]);
        }
    }
}

} // verus!
