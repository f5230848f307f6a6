use crate::game::arena::{Arena, ArenaModel};
use crate::game::player::{Player, PlayerModel};
use crate::geometry::{lemma_collides_symmetric, Circle, CircleModel, Point, RectModel, Rectangle};
use crate::utils::NotFoundError;
use rand::rngs::SmallRng;
use vstd::prelude::*;

verus! {

/// Attempts a single placement search makes before it gives up.
const MAX_ITERS: u64 = 100;

/// What a team is: its zone, its players in placement order, and the index
/// of the player whose turn it is.
pub ghost struct TeamModel {
    pub area: RectModel,
    pub players: Seq<PlayerModel>,
    pub current_player: int,
}

impl TeamModel {
    /// The turn index points at a player, or is zero in an empty team.
    pub open spec fn turn_ok(self) -> bool {
        self.current_player == 0 || 0 <= self.current_player < self.players.len()
    }

    /// The index of the player `d` places after the current one, in circular
    /// order.
    pub open spec fn turn_after(self, d: int) -> int {
        (self.current_player + d) % (self.players.len() as int)
    }

    /// Some player of the team collides with `c`.
    pub open spec fn collides_with(self, c: CircleModel) -> bool {
        exists|i: int| 0 <= i < self.players.len() && #[trigger] self.players[i].shape.collides(c)
    }

    /// `c` is a place where a new player of this team may stand: clear of the
    /// team's players, of every player and obstacle of the arena, and wholly
    /// inside the team's zone.
    pub open spec fn valid_spot(self, arena: ArenaModel, c: CircleModel) -> bool {
        &&& !self.collides_with(c)
        &&& !arena.player_collides(c)
        &&& !arena.obstacle_collides(c)
        &&& self.area.contains_circle(c)
    }

    /// The team's players keep clear of one another and of everything in the
    /// arena, and each lies wholly inside the team's zone.
    pub open spec fn fits(self, arena: ArenaModel) -> bool {
        &&& forall|i: int, j: int|
            0 <= i < self.players.len() && 0 <= j < self.players.len() && i != j
                ==> !(#[trigger] self.players[i].shape.collides(self.players[j].shape))
        &&& forall|i: int|
            #![trigger self.players[i]]
            0 <= i < self.players.len() ==> {
                &&& self.area.contains_circle(self.players[i].shape)
                &&& !arena.player_collides(self.players[i].shape)
                &&& !arena.obstacle_collides(self.players[i].shape)
            }
    }
}

/// A team: the zone it was given and the players placed in it.
#[derive(Clone, Debug)]
pub struct Team {
    area: Rectangle,
    players: Vec<Player>,
    current_player: usize,
}

impl View for Team {
    type V = TeamModel;

    closed spec fn view(&self) -> TeamModel {
        TeamModel {
            area: self.area@,
            players: self.players@.map_values(|p: Player| p@),
            current_player: self.current_player as int,
        }
    }
}

impl Team {
    /// An empty team that owns the zone `area`.
    pub fn new(area: Rectangle) -> (r: Team)
        ensures
            r@ == (TeamModel { area: area@, players: Seq::empty(), current_player: 0 }),
    {
        let r = Team { area, players: Vec::new(), current_player: 0 };
        assert(r@.players =~= Seq::empty());
        r
    }

    pub fn area(&self) -> (r: &Rectangle)
        ensures
            r@ == self@.area,
    {
        &self.area
    }

    pub fn players(&self) -> (r: &Vec<Player>)
        ensures
            r@.map_values(|p: Player| p@) == self@.players,
    {
        &self.players
    }

    /// Place `team_size` more players of radius `player_size` in the team's
    /// zone, each clear of the team, of the players and the obstacles of
    /// `arena`. Stops at the first player for which the search fails; the
    /// players placed until then stay.
    pub fn add_players(
        &mut self,
        team_size: usize,
        player_size: u32,
        arena: &Arena,
        rng: &mut SmallRng,
    ) -> (r: Result<(), NotFoundError>)
        requires
            player_size > 0,
            old(self)@.fits(arena@),
        ensures
            final(self)@.area == old(self)@.area,
            final(self)@.current_player == old(self)@.current_player,
            final(self)@.fits(arena@),
            old(self)@.players.len() <= final(self)@.players.len() <= old(self)@.players.len()
                + team_size,
            final(self)@.players.subrange(0, old(self)@.players.len() as int) == old(self)@.players,
            forall|i: int|
                old(self)@.players.len() <= i < final(self)@.players.len() ==> {
                    &&& (#[trigger] final(self)@.players[i]).shape.r == player_size
                    &&& final(self)@.players[i].alive
                },
            r is Ok <==> final(self)@.players.len() == old(self)@.players.len() + team_size,
            r matches Err(e) ==> e@ == "No valid position found"@,
    {
        let ghost start = self@;
        let mut k: usize = 0;
        while k < team_size
            invariant
                0 <= k <= team_size,
                player_size > 0,
                start == old(self)@,
                self@.area == start.area,
                self@.current_player == start.current_player,
                self@.fits(arena@),
                self@.players.len() == start.players.len() + k,
                self@.players.subrange(0, start.players.len() as int) == start.players,
                forall|i: int|
                    start.players.len() <= i < self@.players.len() ==> {
                        &&& (#[trigger] self@.players[i]).shape.r == player_size
                        &&& self@.players[i].alive
                    },
            decreases team_size - k,
        {
            let shape = match self.find_random_pos(player_size, arena, rng) {
                Ok(c) => c,
                Err(e) => {
                    return Err(e);
                },
            };
            let ghost before = self@;
            let player = Player::from_circle(shape);
            self.players.push(player);
            proof {
                assert(self@.players =~= before.players.push(player@));
                lemma_push_player(before, arena@, shape@);
                assert(self@.players.subrange(0, start.players.len() as int) =~= start.players);
            }
            k += 1;
        }
        Ok(())
    }

    /// True if the shape collides with any player of the team.
    pub fn collision_with_player(&self, shape: &Circle) -> (r: bool)
        ensures
            r == self@.collides_with(shape@),
    {
        let mut i: usize = 0;
        while i < self.players.len()
            invariant
                0 <= i <= self.players.len(),
                self@.players.len() == self.players.len(),
                forall|j: int| 0 <= j < i ==> !(#[trigger] self@.players[j].shape.collides(shape@)),
            decreases self.players.len() - i,
        {
            if self.players[i].shape().collision_circle(shape) {
                assert(self@.players[i as int].shape.collides(shape@));
                return true;
            }
            i += 1;
        }
        false
    }

    /// The player whose turn it is, if it is alive.
    pub fn get_current_player(&self) -> (r: Option<&Player>)
        requires
            0 <= self@.current_player < self@.players.len(),
        ensures
            r is Some <==> self@.players[self@.current_player].alive,
            r matches Some(p) ==> p@ == self@.players[self@.current_player],
    {
        if self.players[self.current_player].alive() {
            Some(&self.players[self.current_player])
        } else {
            None
        }
    }

    /// The player whose turn it is, for change, if it is alive.
    pub fn get_current_player_mut(&mut self) -> (r: Option<&mut Player>)
        requires
            0 <= old(self)@.current_player < old(self)@.players.len(),
        ensures
            r is Some <==> old(self)@.players[old(self)@.current_player].alive,
            r matches Some(p) ==> (*p)@ == old(self)@.players[old(self)@.current_player],
            r matches Some(p) ==> final(self)@ == (TeamModel {
                players: old(self)@.players.update(old(self)@.current_player, (*final(p))@),
                ..old(self)@
            }),
            r is None ==> final(self)@ == old(self)@,
    {
        if self.players[self.current_player].alive() {
            let cur = self.current_player;
            proof {
                lemma_update_view(self.players@, cur as int);
            }
            Some(&mut self.players[cur])
        } else {
            None
        }
    }

    /// Moves the turn to the next living player after the current one, in
    /// circular order; returns `false`, and moves nothing, if no other player
    /// is alive.
    pub fn next_player(&mut self) -> (r: bool)
        requires
            old(self)@.turn_ok(),
        ensures
            final(self)@.turn_ok(),
            final(self)@.area == old(self)@.area,
            final(self)@.players == old(self)@.players,
            r ==> exists|d: int|
                {
                    &&& 1 <= d < old(self)@.players.len()
                    &&& final(self)@.current_player == #[trigger] old(self)@.turn_after(d)
                    &&& old(self)@.players[final(self)@.current_player].alive
                    &&& forall|e: int|
                        1 <= e < d ==> !old(self)@.players[#[trigger] old(self)@.turn_after(e)].alive
                },
            !r ==> final(self)@ == old(self)@,
            !r ==> forall|e: int|
                1 <= e < old(self)@.players.len() ==> !old(self)@.players[#[trigger] old(self)@.turn_after(e)].alive,
    {
        let len = self.players.len();
        let cur = self.current_player;
        let mut i: usize = 1;
        while i < len
            invariant
                1 <= i,
                len == self.players.len(),
                cur == self.current_player,
                cur == 0 || cur < len,
                self@ == old(self)@,
                forall|e: int| 1 <= e < i ==> !self@.players[#[trigger] self@.turn_after(e)].alive,
            decreases len - i,
        {
            let idx = if i < len - cur {
                cur + i
            } else {
                i - (len - cur)
            };
            assert(idx == self@.turn_after(i as int)) by {
                if i < len - cur {
                    vstd::arithmetic::div_mod::lemma_small_mod(idx as nat, len as nat);
                } else {
                    vstd::arithmetic::div_mod::lemma_mod_sub_multiples_vanish(
                        (cur + i) as int,
                        len as int,
                    );
                    vstd::arithmetic::div_mod::lemma_small_mod(idx as nat, len as nat);
                }
            }
            if self.players[idx].alive() {
                self.current_player = idx;
                assert(self@.players == old(self)@.players);
                assert(self@.current_player == old(self)@.turn_after(i as int));
                return true;
            }
            i += 1;
        }
        false
    }

    /// True if some players in the team are still alive.
    pub fn is_alive(&self) -> (r: bool)
        ensures
            r == exists|i: int| 0 <= i < self@.players.len() && (#[trigger] self@.players[i]).alive,
    {
        let mut i: usize = 0;
        while i < self.players.len()
            invariant
                0 <= i <= self.players.len(),
                self@.players.len() == self.players.len(),
                forall|j: int| 0 <= j < i ==> !(#[trigger] self@.players[j]).alive,
            decreases self.players.len() - i,
        {
            if self.players[i].alive() {
                assert(self@.players[i as int].alive);
                return true;
            }
            i += 1;
        }
        false
    }

    /// A circle of radius `player_size` at a spot where a new player may
    /// stand, found by drawing centres uniformly from the zone.
    fn find_random_pos(&self, player_size: u32, arena: &Arena, rng: &mut SmallRng) -> (r: Result<
        Circle,
        NotFoundError,
    >)
        requires
            player_size > 0,
        ensures
            r matches Ok(c) ==> c@.r == player_size && self@.valid_spot(arena@, c@),
            r matches Err(e) ==> e@ == "No valid position found"@,
    {
        let x_range = self.area.range_h();
        let y_range = self.area.range_v();
        let mut k: u64 = 0;
        while k < MAX_ITERS
            invariant
                player_size > 0,
            decreases MAX_ITERS - k,
        {
            let pos = Point::random(&x_range, &y_range, rng);
            let shape = Circle::new(pos, player_size);
            if self.is_valid_pos(&shape, arena) {
                return Ok(shape);
            }
            k += 1;
        }
        Err(NotFoundError::new("No valid position found"))
    }

    /// True if a new player of this team may stand at `shape`.
    pub fn is_valid_pos(&self, shape: &Circle, arena: &Arena) -> (r: bool)
        ensures
            r == self@.valid_spot(arena@, shape@),
    {
        !self.collision_with_player(shape) && !arena.collision_with_player(shape)
            && !arena.collision_with_obstacle(shape) && self.area.circle_inside(shape)
    }
}

/// Replacing one player of a sequence replaces its view alone.
proof fn lemma_update_view(s: Seq<Player>, i: int)
    requires
        0 <= i < s.len(),
    ensures
        forall|x: Player|
            (#[trigger] s.update(i, x)).map_values(|p: Player| p@) == s.map_values(|p: Player| p@).update(
                i,
                x@,
            ),
{
    assert forall|x: Player|
        (#[trigger] s.update(i, x)).map_values(|p: Player| p@) == s.map_values(|p: Player| p@).update(
            i,
            x@,
        ) by {
        assert(s.update(i, x).map_values(|p: Player| p@) =~= s.map_values(|p: Player| p@).update(
            i,
            x@,
        ));
    }
}

/// A team that fits the arena still fits it after a player is added at a
/// valid spot.
proof fn lemma_push_player(t: TeamModel, arena: ArenaModel, c: CircleModel)
    requires
        t.fits(arena),
        t.valid_spot(arena, c),
    ensures
        (TeamModel { players: t.players.push(PlayerModel { shape: c, alive: true, formula: Seq::empty() }), ..t }).fits(arena),
{
    let p = PlayerModel { shape: c, alive: true, formula: Seq::empty() };
    let u = TeamModel { players: t.players.push(p), ..t };
    let n = t.players.len();
    assert forall|i: int, j: int|
        0 <= i < u.players.len() && 0 <= j < u.players.len() && i != j implies !(
        #[trigger] u.players[i].shape.collides(u.players[j].shape)) by {
        if i == n {
            assert(u.players[j] == t.players[j]);
            lemma_collides_symmetric(c, t.players[j].shape);
        } else if j == n {
            assert(u.players[i] == t.players[i]);
        } else {
            assert(u.players[i] == t.players[i] && u.players[j] == t.players[j]);
        }
    }
    assert forall|i: int| 0 <= i < u.players.len() implies {
        &&& u.area.contains_circle(#[trigger] u.players[i].shape)
        &&& !arena.player_collides(u.players[i].shape)
        &&& !arena.obstacle_collides(u.players[i].shape)
    } by {
        if i < n {
            assert(u.players[i] == t.players[i]);
        }
    }
}

} // verus!
