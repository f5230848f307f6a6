use crate::geometry::{Circle, CircleModel, Point};
use vstd::prelude::*;

verus! {

/// What a player is: its disc, whether it is still in play, and the formula
/// it carries.
pub ghost struct PlayerModel {
    pub shape: CircleModel,
    pub alive: bool,
    pub formula: Seq<char>,
}

/// A player: a disc owned by one team.
#[derive(Clone, Debug)]
pub struct Player {
    shape: Circle,
    alive: bool,
    formula: String,
}

impl View for Player {
    type V = PlayerModel;

    closed spec fn view(&self) -> PlayerModel {
        PlayerModel { shape: self.shape@, alive: self.alive, formula: self.formula@ }
    }
}

impl Player {
    /// A living player with an empty formula, occupying `shape`.
    pub fn from_circle(shape: Circle) -> (r: Player)
        ensures
            r@ == (PlayerModel { shape: shape@, alive: true, formula: Seq::empty() }),
    {
        Player { shape, alive: true, formula: String::new() }
    }

    pub fn new(pos: Point, radius: u32) -> (r: Player)
        requires
            radius > 0,
        ensures
            r@ == (PlayerModel {
                shape: CircleModel { x: pos.x as int, y: pos.y as int, r: radius as int },
                alive: true,
                formula: Seq::empty(),
            }),
    {
        Player::from_circle(Circle::new(pos, radius))
    }

    /// A copy of the player, formula included.
    pub fn duplicate(&self) -> (r: Player)
        ensures
            r@ == self@,
    {
        Player { shape: self.shape, alive: self.alive, formula: self.formula.clone() }
    }

    pub fn shape_js(&self) -> (r: Circle)
        ensures
            r@ == self@.shape,
    {
        self.shape
    }

    pub fn alive(&self) -> (r: bool)
        ensures
            r == self@.alive,
    {
        self.alive
    }

    pub fn formula_js(&self) -> (r: String)
        ensures
            r@ == self@.formula,
    {
        self.formula.clone()
    }

    pub fn set_formula(&mut self, formula: String)
        ensures
            final(self)@ == (PlayerModel { formula: formula@, ..old(self)@ }),
    {
        self.formula = formula;
    }

    pub fn shape(&self) -> (r: &Circle)
        ensures
            r@ == self@.shape,
    {
        &self.shape
    }

    pub fn formula(&self) -> (r: &str)
        ensures
            r@ == self@.formula,
    {
        self.formula.as_str()
    }
}

} // verus!
