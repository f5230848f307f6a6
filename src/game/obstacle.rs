use crate::geometry::{Circle, CircleModel, Point};
use vstd::prelude::*;

verus! {

/// A static obstacle: a disc that players must keep clear of.
#[derive(Clone, Copy, Debug)]
pub struct Obstacle {
    shape: Circle,
}

impl View for Obstacle {
    type V = CircleModel;

    closed spec fn view(&self) -> CircleModel {
        self.shape@
    }
}

impl Obstacle {
    pub fn from_circle(circle: Circle) -> (r: Obstacle)
        ensures
            r@ == circle@,
    {
        Obstacle { shape: circle }
    }

    pub fn new(pos: Point, radius: u32) -> (r: Obstacle)
        requires
            radius > 0,
        ensures
            r@ == (CircleModel { x: pos.x as int, y: pos.y as int, r: radius as int }),
    {
        Obstacle { shape: Circle::new(pos, radius) }
    }

    pub fn shape(&self) -> (r: &Circle)
        ensures
            r@ == self@,
    {
        &self.shape
    }
}

} // verus!
