use crate::game::obstacle::Obstacle;
use crate::game::team::{Team, TeamModel};
use crate::geometry::{
    clamp, lemma_collides_symmetric, lemma_partition_tiles, partition_spec, Circle, CircleModel,
    Point, RectModel, Rectangle,
};
use crate::utils::NotFoundError;
use rand::rngs::SmallRng;
use vstd::prelude::*;

verus! {

/// Attempts of a single placement search, and the most whole-arena attempts
/// `build_arena` makes.
pub const MAX_ITERS: usize = 100;

/// What an arena is: its half extents, its bounds, the obstacles and the teams
/// placed in it, each in placement order.
pub ghost struct ArenaModel {
    pub x_max: int,
    pub y_max: int,
    pub area: RectModel,
    pub obstacles: Seq<CircleModel>,
    pub teams: Seq<TeamModel>,
}

impl ArenaModel {
    /// Some player of some team collides with `c`.
    pub open spec fn player_collides(self, c: CircleModel) -> bool {
        exists|t: int, i: int|
            0 <= t < self.teams.len() && 0 <= i < self.teams[t].players.len()
                && #[trigger] self.teams[t].players[i].shape.collides(c)
    }

    /// No team holds a player yet.
    pub open spec fn no_players(self) -> bool {
        forall|t: int| 0 <= t < self.teams.len() ==> (#[trigger] self.teams[t]).players.len() == 0
    }

    /// Some obstacle collides with `c`.
    pub open spec fn obstacle_collides(self, c: CircleModel) -> bool {
        exists|o: int| 0 <= o < self.obstacles.len() && #[trigger] self.obstacles[o].collides(c)
    }

    /// No two players, of one team or of two, collide.
    pub open spec fn players_apart(self) -> bool {
        forall|t1: int, i1: int, t2: int, i2: int|
            0 <= t1 < self.teams.len() && 0 <= i1 < self.teams[t1].players.len() && 0 <= t2
                < self.teams.len() && 0 <= i2 < self.teams[t2].players.len() && (t1 != t2 || i1
                != i2) ==> !(#[trigger] self.teams[t1].players[i1].shape.collides(
                self.teams[t2].players[i2].shape,
            ))
    }

    /// No player collides with an obstacle.
    pub open spec fn players_clear_of_obstacles(self) -> bool {
        forall|t: int, i: int, o: int|
            0 <= t < self.teams.len() && 0 <= i < self.teams[t].players.len() && 0 <= o
                < self.obstacles.len() ==> !(#[trigger] self.obstacles[o].collides(
                self.teams[t].players[i].shape,
            ))
    }

    /// Every player lies wholly inside its team's zone.
    pub open spec fn players_in_zones(self) -> bool {
        forall|t: int, i: int|
            0 <= t < self.teams.len() && 0 <= i < self.teams[t].players.len()
                ==> self.teams[t].area.contains_circle(#[trigger] self.teams[t].players[i].shape)
    }

    /// The placement rules hold of everything placed so far.
    pub open spec fn placement_ok(self) -> bool {
        &&& self.players_apart()
        &&& self.players_clear_of_obstacles()
        &&& self.players_in_zones()
    }

    /// The arena centred on the origin with the given half extents.
    pub open spec fn bounds(x_max: int, y_max: int) -> RectModel {
        RectModel { left: -x_max, right: x_max, bottom: -y_max, top: y_max }
    }

    /// What `build_arena` promises of the arena it returns: the requested
    /// bounds; one obstacle per size draw, its radius the draw clamped into
    /// the size bounds and its centre in the arena; one team per requested
    /// size, in the zones of the partition, with that many living players of
    /// the requested radius; and the placement rules.
    pub open spec fn is_built(
        self,
        x_max: int,
        y_max: int,
        obstacle_draws: Seq<i32>,
        min_obstacle_size: int,
        max_obstacle_size: int,
        players_per_team: Seq<usize>,
        player_size: int,
    ) -> bool {
        &&& self.x_max == x_max
        &&& self.y_max == y_max
        &&& self.area == ArenaModel::bounds(x_max, y_max)
        &&& self.placement_ok()
        &&& self.obstacles.len() == obstacle_draws.len()
        &&& forall|o: int|
            #![trigger self.obstacles[o]]
            0 <= o < self.obstacles.len() ==> {
                &&& self.obstacles[o].r == clamp(
                    obstacle_draws[o] as int,
                    min_obstacle_size,
                    max_obstacle_size,
                )
                &&& self.area.contains_point(self.obstacles[o].x, self.obstacles[o].y)
            }
        &&& self.teams.len() == players_per_team.len()
        &&& forall|t: int|
            #![trigger self.teams[t]]
            0 <= t < self.teams.len() ==> {
                &&& self.teams[t].area == partition_spec(self.area, players_per_team.len())[t]
                &&& self.teams[t].players.len() == players_per_team[t]
                &&& self.teams[t].current_player == 0
            }
        &&& forall|t: int, i: int|
            0 <= t < self.teams.len() && 0 <= i < self.teams[t].players.len() ==> {
                &&& (#[trigger] self.teams[t].players[i]).shape.r == player_size
                &&& self.teams[t].players[i].alive
            }
    }
}

/// The bounded play area, with the obstacles and the teams placed in it.
#[derive(Clone, Debug)]
pub struct Arena {
    x_max: i32,
    y_max: i32,
    area: Rectangle,
    obstacles: Vec<Obstacle>,
    teams: Vec<Team>,
}

impl View for Arena {
    type V = ArenaModel;

    closed spec fn view(&self) -> ArenaModel {
        ArenaModel {
            x_max: self.x_max as int,
            y_max: self.y_max as int,
            area: self.area@,
            obstacles: self.obstacles@.map_values(|o: Obstacle| o@),
            teams: self.teams@.map_values(|t: Team| t@),
        }
    }
}

impl Arena {
    pub fn js_area(&self) -> (r: Rectangle)
        ensures
            r@ == self@.area,
    {
        self.area
    }

    pub fn x_max(&self) -> (r: i32)
        ensures
            r == self@.x_max,
    {
        self.x_max
    }

    pub fn y_max(&self) -> (r: i32)
        ensures
            r == self@.y_max,
    {
        self.y_max
    }

    /// An empty arena spanning `-x_max..=x_max` by `-y_max..=y_max`.
    pub fn new(x_max: i32, y_max: i32) -> (r: Arena)
        requires
            0 <= x_max,
            0 <= y_max,
        ensures
            r@ == (ArenaModel {
                x_max: x_max as int,
                y_max: y_max as int,
                area: ArenaModel::bounds(x_max as int, y_max as int),
                obstacles: Seq::empty(),
                teams: Seq::empty(),
            }),
    {
        let area = Rectangle::new(Point::new(0, 0), 2 * x_max as u32, 2 * y_max as u32);
        let r = Arena { x_max, y_max, area, obstacles: Vec::new(), teams: Vec::new() };
        assert(r@.obstacles =~= Seq::empty());
        assert(r@.teams =~= Seq::empty());
        r
    }

    /// Place one obstacle per entry of `drawn_sizes`: its radius is the entry
    /// clamped into `min_obstacle_size..=max_obstacle_size`, its centre a
    /// point of the arena where it collides with no player. Obstacles may
    /// overlap one another and reach past the arena's edges. Stops at the
    /// first obstacle for which the search fails; those placed until then
    /// stay.
    pub fn add_obstacles(
        &mut self,
        drawn_sizes: &Vec<i32>,
        min_obstacle_size: u32,
        max_obstacle_size: u32,
        rng: &mut SmallRng,
    ) -> (r: Result<(), NotFoundError>)
        requires
            0 < min_obstacle_size <= max_obstacle_size,
            old(self)@.placement_ok(),
        ensures
            final(self)@.placement_ok(),
            final(self)@.x_max == old(self)@.x_max,
            final(self)@.y_max == old(self)@.y_max,
            final(self)@.area == old(self)@.area,
            final(self)@.teams == old(self)@.teams,
            old(self)@.obstacles.len() <= final(self)@.obstacles.len() <= old(self)@.obstacles.len()
                + drawn_sizes.len(),
            final(self)@.obstacles.subrange(0, old(self)@.obstacles.len() as int)
                == old(self)@.obstacles,
            forall|o: int|
                #![trigger final(self)@.obstacles[o]]
                old(self)@.obstacles.len() <= o < final(self)@.obstacles.len() ==> {
                    &&& final(self)@.obstacles[o].r == clamp(
                        drawn_sizes@[o - old(self)@.obstacles.len()] as int,
                        min_obstacle_size as int,
                        max_obstacle_size as int,
                    )
                    &&& final(self)@.area.contains_point(
                        final(self)@.obstacles[o].x,
                        final(self)@.obstacles[o].y,
                    )
                },
            r is Ok <==> final(self)@.obstacles.len() == old(self)@.obstacles.len()
                + drawn_sizes.len(),
            r matches Err(e) ==> e@ == "No valid position found for obstacle"@,
            old(self)@.no_players() ==> r is Ok,
    {
        let ghost start = self@;
        let mut k: usize = 0;
        while k < drawn_sizes.len()
            invariant
                0 <= k <= drawn_sizes.len(),
                0 < min_obstacle_size <= max_obstacle_size,
                self@.placement_ok(),
                self@.x_max == start.x_max,
                self@.y_max == start.y_max,
                start == old(self)@,
                self@.area == start.area,
                self@.teams == start.teams,
                self@.obstacles.len() == start.obstacles.len() + k,
                self@.obstacles.subrange(0, start.obstacles.len() as int) == start.obstacles,
                forall|o: int|
                    #![trigger self@.obstacles[o]]
                    start.obstacles.len() <= o < self@.obstacles.len() ==> {
                        &&& self@.obstacles[o].r == clamp(
                            drawn_sizes@[o - start.obstacles.len()] as int,
                            min_obstacle_size as int,
                            max_obstacle_size as int,
                        )
                        &&& self@.area.contains_point(self@.obstacles[o].x, self@.obstacles[o].y)
                    },
            decreases drawn_sizes.len() - k,
        {
            let drawn = drawn_sizes[k];
            let obstacle_size: u32 = if drawn as i64 <= min_obstacle_size as i64 {
                min_obstacle_size
            } else if drawn as i64 >= max_obstacle_size as i64 {
                max_obstacle_size
            } else {
                drawn as u32
            };
            let shape = match self.find_random_pos(obstacle_size, rng) {
                Ok(c) => c,
                Err(e) => {
                    return Err(e);
                },
            };
            let ghost before = self@;
            self.obstacles.push(Obstacle::from_circle(shape));
            proof {
                assert(self@.obstacles =~= before.obstacles.push(shape@));
                assert(self@.teams =~= before.teams);
                lemma_push_obstacle(before, shape@);
                assert(self@.obstacles.subrange(0, start.obstacles.len() as int)
                    =~= start.obstacles);
            }
            k += 1;
        }
        Ok(())
    }

    /// Partition the arena into one zone per entry of `players_per_team`, and
    /// fill each zone with a new team of that many players of radius
    /// `player_size`, in order. Stops at the first team that cannot be
    /// completed, which is not added; the teams completed until then stay.
    pub fn add_teams(
        &mut self,
        players_per_team: &Vec<usize>,
        player_size: u32,
        rng: &mut SmallRng,
    ) -> (r: Result<(), NotFoundError>)
        requires
            players_per_team.len() >= 1,
            player_size > 0,
            old(self)@.placement_ok(),
        ensures
            final(self)@.placement_ok(),
            final(self)@.x_max == old(self)@.x_max,
            final(self)@.y_max == old(self)@.y_max,
            final(self)@.area == old(self)@.area,
            final(self)@.obstacles == old(self)@.obstacles,
            old(self)@.teams.len() <= final(self)@.teams.len() <= old(self)@.teams.len()
                + players_per_team.len(),
            final(self)@.teams.subrange(0, old(self)@.teams.len() as int) == old(self)@.teams,
            forall|t: int|
                #![trigger final(self)@.teams[t]]
                old(self)@.teams.len() <= t < final(self)@.teams.len() ==> {
                    &&& final(self)@.teams[t].area == partition_spec(
                        old(self)@.area,
                        players_per_team.len() as nat,
                    )[t - old(self)@.teams.len()]
                    &&& final(self)@.teams[t].players.len() == players_per_team@[t - old(self)@.teams.len()]
                    &&& final(self)@.teams[t].current_player == 0
                },
            forall|t: int, i: int|
                old(self)@.teams.len() <= t < final(self)@.teams.len() && 0 <= i < final(self)@.teams[t].players.len() ==> {
                    &&& (#[trigger] final(self)@.teams[t].players[i]).shape.r == player_size
                    &&& final(self)@.teams[t].players[i].alive
                },
            r is Ok <==> final(self)@.teams.len() == old(self)@.teams.len()
                + players_per_team.len(),
            r matches Err(e) ==> e@ == "No valid position found"@,
            (forall|t: int| 0 <= t < players_per_team.len() ==> #[trigger] players_per_team@[t] == 0)
                ==> r is Ok,
    {
        let ghost start = self@;
        let n = players_per_team.len();
        let areas = self.area.partition(n as u64);
        let ghost zones = partition_spec(start.area, n as nat);
        proof {
            lemma_partition_tiles(start.area, n as nat);
            assert(areas@.map_values(|p: Rectangle| p@).len() == n);
        }
        let mut k: usize = 0;
        while k < n
            invariant
                0 <= k <= n,
                n == players_per_team.len(),
                player_size > 0,
                areas@.len() == n,
                areas@.map_values(|p: Rectangle| p@) == zones,
                zones == partition_spec(start.area, n as nat),
                self@.placement_ok(),
                self@.x_max == start.x_max,
                self@.y_max == start.y_max,
                start == old(self)@,
                self@.area == start.area,
                self@.obstacles == start.obstacles,
                self@.teams.len() == start.teams.len() + k,
                self@.teams.subrange(0, start.teams.len() as int) == start.teams,
                forall|t: int|
                    #![trigger self@.teams[t]]
                    start.teams.len() <= t < self@.teams.len() ==> {
                        &&& self@.teams[t].area == zones[t - start.teams.len()]
                        &&& self@.teams[t].players.len() == players_per_team@[t
                            - start.teams.len()]
                        &&& self@.teams[t].current_player == 0
                    },
                forall|t: int, i: int|
                    start.teams.len() <= t < self@.teams.len() && 0 <= i
                        < self@.teams[t].players.len() ==> {
                        &&& (#[trigger] self@.teams[t].players[i]).shape.r == player_size
                        &&& self@.teams[t].players[i].alive
                    },
            decreases n - k,
        {
            let mut team = Team::new(areas[k]);
            proof {
                assert(areas@.map_values(|p: Rectangle| p@)[k as int] == areas@[k as int]@);
                assert(team@.players =~= Seq::<crate::game::player::PlayerModel>::empty());
            }
            match team.add_players(players_per_team[k], player_size, self, rng) {
                Ok(()) => {},
                Err(e) => {
                    return Err(e);
                },
            }
            let ghost before = self@;
            self.teams.push(team);
            proof {
                assert(self@.teams =~= before.teams.push(team@));
                assert(self@.obstacles =~= before.obstacles);
                lemma_push_team(before, team@);
                assert(self@.teams.subrange(0, start.teams.len() as int) =~= start.teams);
                assert forall|t: int, i: int|
                    start.teams.len() <= t < self@.teams.len() && 0 <= i
                        < self@.teams[t].players.len() implies {
                    &&& (#[trigger] self@.teams[t].players[i]).shape.r == player_size
                    &&& self@.teams[t].players[i].alive
                } by {
                    if t == self@.teams.len() - 1 {
                        assert(self@.teams[t] == team@);
                        assert(team@.players[i] == team@.players[i]);
                    } else {
                        assert(self@.teams[t] == before.teams[t]);
                    }
                }
            }
            k += 1;
        }
        Ok(())
    }

    /// True if there is a collision with a player.
    pub fn collision_with_player(&self, shape: &Circle) -> (r: bool)
        ensures
            r == self@.player_collides(shape@),
    {
        let mut t: usize = 0;
        while t < self.teams.len()
            invariant
                0 <= t <= self.teams.len(),
                self@.teams.len() == self.teams.len(),
                forall|u: int, i: int|
                    0 <= u < t && 0 <= i < self@.teams[u].players.len() ==> !(
                    #[trigger] self@.teams[u].players[i].shape.collides(shape@)),
            decreases self.teams.len() - t,
        {
            if self.teams[t].collision_with_player(shape) {
                assert(self@.teams[t as int] == self.teams@[t as int]@);
                return true;
            }
            assert(self@.teams[t as int] == self.teams@[t as int]@);
            t += 1;
        }
        false
    }

    /// True if there is a collision with an obstacle.
    pub fn collision_with_obstacle(&self, shape: &Circle) -> (r: bool)
        ensures
            r == self@.obstacle_collides(shape@),
    {
        let mut o: usize = 0;
        while o < self.obstacles.len()
            invariant
                0 <= o <= self.obstacles.len(),
                self@.obstacles.len() == self.obstacles.len(),
                forall|j: int| 0 <= j < o ==> !(#[trigger] self@.obstacles[j].collides(shape@)),
            decreases self.obstacles.len() - o,
        {
            if self.obstacles[o].shape().collision_circle(shape) {
                assert(self@.obstacles[o as int].collides(shape@));
                return true;
            }
            o += 1;
        }
        false
    }

    pub fn get_area(&self) -> (r: &Rectangle)
        ensures
            r@ == self@.area,
    {
        &self.area
    }

    pub fn get_teams(&self) -> (r: &Vec<Team>)
        ensures
            r@.map_values(|t: Team| t@) == self@.teams,
    {
        &self.teams
    }

    pub fn get_teams_mut(&mut self) -> (r: &mut Vec<Team>)
        ensures
            (*r)@.map_values(|t: Team| t@) == old(self)@.teams,
            final(self)@ == (ArenaModel {
                teams: (*final(r))@.map_values(|t: Team| t@),
                ..old(self)@
            }),
    {
        &mut self.teams
    }

    pub fn get_obstacles(&self) -> (r: &Vec<Obstacle>)
        ensures
            r@.map_values(|o: Obstacle| o@) == self@.obstacles,
    {
        &self.obstacles
    }

    /// Clears the entire arena, leaving it blank.
    pub fn clear(&mut self)
        ensures
            final(self)@ == (ArenaModel {
                obstacles: Seq::empty(),
                teams: Seq::empty(),
                ..old(self)@
            }),
    {
        self.obstacles.clear();
        self.teams.clear();
        assert(self@.obstacles =~= Seq::empty());
        assert(self@.teams =~= Seq::empty());
    }

    /// A circle of radius `obstacle_size` centred in the arena that collides
    /// with no player, found by drawing centres uniformly from the arena.
    fn find_random_pos(&self, obstacle_size: u32, rng: &mut SmallRng) -> (r: Result<
        Circle,
        NotFoundError,
    >)
        requires
            obstacle_size > 0,
        ensures
            r matches Ok(c) ==> {
                &&& c@.r == obstacle_size
                &&& !self@.player_collides(c@)
                &&& self@.area.contains_point(c@.x, c@.y)
            },
            r matches Err(e) ==> e@ == "No valid position found for obstacle"@,
            self@.no_players() ==> r is Ok,
    {
        let range_h = self.area.range_h();
        let range_v = self.area.range_v();
        let mut k: usize = 0;
        while k < MAX_ITERS
            invariant
                obstacle_size > 0,
                range_h@ == (self@.area.left, self@.area.right),
                range_v@ == (self@.area.bottom, self@.area.top),
                k > 0 ==> !self@.no_players(),
            decreases MAX_ITERS - k,
        {
            let pos = Point::random(&range_h, &range_v, rng);
            let shape = Circle::new(pos, obstacle_size);
            // An obstacle may stand anywhere it does not collide with a player.
            if !self.collision_with_player(&shape) {
                return Ok(shape);
            }
            k += 1;
        }
        Err(NotFoundError::new("No valid position found for obstacle"))
    }
}

/// Build an arena spanning `-x_max..=x_max` by `-y_max..=y_max`: obstacles
/// first, one per size draw of the attempt, then the teams, one per entry of
/// `players_per_team`. Attempt `i` takes its size draws from
/// `obstacle_draws[i]`. An attempt that fails in either phase is cleared and
/// the whole build starts again from a blank arena with the next list of
/// size draws, drawing positions on from where the generator stands; after
/// `MAX_ITERS` attempts, or when the lists run out, the build fails.
///
/// With every team empty the first attempt succeeds. No player wider than
/// its zone can ever be placed: with such a radius and a team to fill in that
/// zone, or in any zone when the player is wider than the arena, the build
/// fails.
pub fn build_arena(
    x_max: i32,
    y_max: i32,
    obstacle_draws: &Vec<Vec<i32>>,
    min_obstacle_size: u32,
    max_obstacle_size: u32,
    players_per_team: &Vec<usize>,
    player_size: u32,
    rng: &mut SmallRng,
) -> (r: Result<Arena, NotFoundError>)
    requires
        0 <= x_max,
        0 <= y_max,
        obstacle_draws.len() >= 1,
        0 < min_obstacle_size <= max_obstacle_size,
        players_per_team.len() >= 1,
        player_size > 0,
    ensures
        r matches Ok(a) ==> exists|i: int|
            0 <= i < obstacle_draws.len() && a@.is_built(
                x_max as int,
                y_max as int,
                (#[trigger] obstacle_draws@[i])@,
                min_obstacle_size as int,
                max_obstacle_size as int,
                players_per_team@,
                player_size as int,
            ),
        r matches Err(e) ==> e@ == "could not find a valid initial configuration"@,
        (player_size > x_max || player_size > y_max) && (exists|t: int|
            0 <= t < players_per_team.len() && #[trigger] players_per_team@[t] > 0) ==> r is Err,
        (forall|t: int| 0 <= t < players_per_team.len() ==> #[trigger] players_per_team@[t] == 0)
            ==> r is Ok,
        (exists|t: int|
            0 <= t < players_per_team.len() && #[trigger] players_per_team@[t] > 0 && ({
                let zone = partition_spec(
                    ArenaModel::bounds(x_max as int, y_max as int),
                    players_per_team.len() as nat,
                )[t];
                zone.width() < 2 * player_size || zone.height() < 2 * player_size
            })) ==> r is Err,
{
    let mut arena = Arena::new(x_max, y_max);
    let mut attempt: usize = 0;
    while attempt < MAX_ITERS && attempt < obstacle_draws.len()
        invariant
            obstacle_draws.len() >= 1,
            (forall|t: int| 0 <= t < players_per_team.len() ==> #[trigger] players_per_team@[t] == 0)
                ==> attempt == 0,
            0 <= x_max,
            0 <= y_max,
            0 < min_obstacle_size <= max_obstacle_size,
            players_per_team.len() >= 1,
            player_size > 0,
            arena@.x_max == x_max,
            arena@.y_max == y_max,
            arena@.area == ArenaModel::bounds(x_max as int, y_max as int),
        decreases MAX_ITERS - attempt,
    {
        arena.clear();
        assert(arena@.placement_ok());
        let placed = match arena.add_obstacles(
            &obstacle_draws[attempt],
            min_obstacle_size,
            max_obstacle_size,
            rng,
        ) {
            Ok(()) => arena.add_teams(players_per_team, player_size, rng),
            Err(e) => Err(e),
        };
        if placed.is_ok() {
            proof {
                let a = arena@;
                let n = players_per_team.len() as nat;
                assert(a.obstacles.subrange(0, 0) =~= Seq::<CircleModel>::empty());
                assert(a.teams.subrange(0, 0) =~= Seq::<TeamModel>::empty());
                assert(a.is_built(
                    x_max as int,
                    y_max as int,
                    obstacle_draws@[attempt as int]@,
                    min_obstacle_size as int,
                    max_obstacle_size as int,
                    players_per_team@,
                    player_size as int,
                ));
                if (player_size > x_max || player_size > y_max) && (exists|t: int|
                    0 <= t < players_per_team.len() && #[trigger] players_per_team@[t] > 0) {
                    let t = choose|t: int|
                        0 <= t < players_per_team.len() && #[trigger] players_per_team@[t] > 0;
                    lemma_partition_tiles(a.area, n);
                    assert(a.teams[t].players[0].shape.r == player_size);
                    assert(a.teams[t].area.contains_circle(a.teams[t].players[0].shape));
                    assert(a.area.contains_rect(partition_spec(a.area, n)[t]));
                    assert(false);
                }
                if exists|t: int|
                    0 <= t < players_per_team.len() && #[trigger] players_per_team@[t] > 0 && ({
                        let zone = partition_spec(a.area, n)[t];
                        zone.width() < 2 * player_size || zone.height() < 2 * player_size
                    }) {
                    let t = choose|t: int|
                        0 <= t < players_per_team.len() && #[trigger] players_per_team@[t] > 0 && ({
                            let zone = partition_spec(a.area, n)[t];
                            zone.width() < 2 * player_size || zone.height() < 2 * player_size
                        });
                    assert(a.teams[t].players[0].shape.r == player_size);
                    assert(a.teams[t].area.contains_circle(a.teams[t].players[0].shape));
                    assert(false);
                }
            }
            return Ok(arena);
        }
        attempt += 1;
    }
    Err(NotFoundError::new("could not find a valid initial configuration"))
}

/// The placement rules still hold after an obstacle that collides with no
/// player is added.
proof fn lemma_push_obstacle(a: ArenaModel, c: CircleModel)
    requires
        a.placement_ok(),
        !a.player_collides(c),
    ensures
        (ArenaModel { obstacles: a.obstacles.push(c), ..a }).placement_ok(),
{
    let b = ArenaModel { obstacles: a.obstacles.push(c), ..a };
    assert forall|t: int, i: int, o: int|
        0 <= t < b.teams.len() && 0 <= i < b.teams[t].players.len() && 0 <= o
            < b.obstacles.len() implies !(#[trigger] b.obstacles[o].collides(
        b.teams[t].players[i].shape,
    )) by {
        if o == a.obstacles.len() {
            lemma_collides_symmetric(c, a.teams[t].players[i].shape);
            assert(!a.teams[t].players[i].shape.collides(c));
        } else {
            assert(b.obstacles[o] == a.obstacles[o]);
        }
    }
}

/// The placement rules still hold after a team that fits the arena is added.
proof fn lemma_push_team(a: ArenaModel, team: TeamModel)
    requires
        a.placement_ok(),
        team.fits(a),
    ensures
        (ArenaModel { teams: a.teams.push(team), ..a }).placement_ok(),
{
    let b = ArenaModel { teams: a.teams.push(team), ..a };
    let n = a.teams.len() as int;
    assert forall|t1: int, i1: int, t2: int, i2: int|
        0 <= t1 < b.teams.len() && 0 <= i1 < b.teams[t1].players.len() && 0 <= t2
            < b.teams.len() && 0 <= i2 < b.teams[t2].players.len() && (t1 != t2 || i1 != i2)
        implies !(#[trigger] b.teams[t1].players[i1].shape.collides(
        b.teams[t2].players[i2].shape,
    )) by {
        if t1 == n && t2 == n {
        } else if t1 == n {
            assert(b.teams[t2] == a.teams[t2]);
            assert(!a.player_collides(team.players[i1].shape));
            assert(!a.teams[t2].players[i2].shape.collides(team.players[i1].shape));
            lemma_collides_symmetric(team.players[i1].shape, a.teams[t2].players[i2].shape);
        } else if t2 == n {
            assert(b.teams[t1] == a.teams[t1]);
            assert(!a.player_collides(team.players[i2].shape));
            assert(!a.teams[t1].players[i1].shape.collides(team.players[i2].shape));
        } else {
            assert(b.teams[t1] == a.teams[t1] && b.teams[t2] == a.teams[t2]);
        }
    }
    assert forall|t: int, i: int, o: int|
        0 <= t < b.teams.len() && 0 <= i < b.teams[t].players.len() && 0 <= o
            < b.obstacles.len() implies !(#[trigger] b.obstacles[o].collides(
        b.teams[t].players[i].shape,
    )) by {
        if t == n {
            assert(!a.obstacle_collides(team.players[i].shape));
        } else {
            assert(b.teams[t] == a.teams[t]);
        }
    }
    assert forall|t: int, i: int|
        0 <= t < b.teams.len() && 0 <= i < b.teams[t].players.len() implies b.teams[t].area.contains_circle(
        #[trigger] b.teams[t].players[i].shape,
    ) by {
        if t < n {
            assert(b.teams[t] == a.teams[t]);
        }
    }
}

} // verus!
