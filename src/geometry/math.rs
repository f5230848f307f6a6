use crate::random::uniform_between;
use rand::rngs::SmallRng;
use vstd::prelude::*;

verus! {

/// A point of the integer grid.
#[derive(Clone, Copy, Debug, PartialEq, Eq, Structural)]
pub struct Point {
    pub x: i32,
    pub y: i32,
}

/// Squared Euclidean distance between two grid positions.
pub open spec fn dist2(ax: int, ay: int, bx: int, by: int) -> int {
    (ax - bx) * (ax - bx) + (ay - by) * (ay - by)
}

impl Point {
    pub fn new(x: i32, y: i32) -> (r: Point)
        ensures
            r.x == x,
            r.y == y,
    {
        Point { x, y }
    }

    /// A point whose coordinates are drawn uniformly and independently from the
    /// two ranges, bounds included.
    pub fn random(x_range: &Range, y_range: &Range, rng: &mut SmallRng) -> (r: Point)
        ensures
            x_range@.0 <= r.x <= x_range@.1,
            y_range@.0 <= r.y <= y_range@.1,
    {
        proof {
            use_type_invariant(x_range);
            use_type_invariant(y_range);
        }
        let x = uniform_between(rng, x_range.min, x_range.max);
        let y = uniform_between(rng, y_range.min, y_range.max);
        Point { x, y }
    }
}

impl Point {
    /// The Euclidean distance to `other`, rounded down to a whole number of
    /// grid steps.
    pub fn distance_to(&self, other: &Point) -> (r: u64)
        ensures
            r * r <= dist2(self.x as int, self.y as int, other.x as int, other.y as int),
            dist2(self.x as int, self.y as int, other.x as int, other.y as int) < (r + 1) * (r + 1),
    {
        let d = self.distance_squared(other);
        // lo * lo <= d < hi * hi, and the largest d is below 2^65 < (2^33)^2
        let mut lo: u64 = 0;
        let mut hi: u64 = 0x2_0000_0000;
        proof {
            assert(0x2_0000_0000 * 0x2_0000_0000 == 0x4_0000_0000_0000_0000);
        }
        while hi - lo > 1
            invariant
                lo < hi <= 0x2_0000_0000,
                lo * lo <= d,
                d < hi * hi,
            decreases hi - lo,
        {
            let mid = lo + (hi - lo) / 2;
            proof {
                assert(mid * mid <= 0x2_0000_0000 * 0x2_0000_0000) by (nonlinear_arith)
                    requires
                        mid <= 0x2_0000_0000,
                ;
            }
            if (mid as u128) * (mid as u128) <= d {
                lo = mid;
            } else {
                hi = mid;
            }
        }
        lo
    }

    /// The squared Euclidean distance to `other`, exactly.
    pub fn distance_squared(&self, other: &Point) -> (r: u128)
        ensures
            r == dist2(self.x as int, self.y as int, other.x as int, other.y as int),
            r < 0x2_0000_0000_0000_0001,
    {
        let dx = self.x as i64 - other.x as i64;
        let dy = self.y as i64 - other.y as i64;
        proof {
            lemma_square_bound(dx as int);
            lemma_square_bound(dy as int);
        }
        let sx = (dx as i128) * (dx as i128);
        let sy = (dy as i128) * (dy as i128);
        (sx + sy) as u128
    }
}

proof fn lemma_square_bound(d: int)
    requires
        -0x1_0000_0000 < d < 0x1_0000_0000,
    ensures
        0 <= d * d <= 0x1_0000_0000_0000_0000,
{
    assert(0 <= d * d <= 0x1_0000_0000_0000_0000) by (nonlinear_arith)
        requires
            -0x1_0000_0000 < d < 0x1_0000_0000,
    ;
}

impl std::ops::Add for Point {
    type Output = Point;

    fn add(self, rhs: Point) -> (r: Point)
        ensures
            r.x == self.x + rhs.x,
            r.y == self.y + rhs.y,
    {
        Point { x: self.x + rhs.x, y: self.y + rhs.y }
    }
}

impl vstd::std_specs::ops::AddSpecImpl for Point {
    open spec fn obeys_add_spec() -> bool {
        true
    }

    open spec fn add_req(self, rhs: Point) -> bool {
        i32::MIN <= self.x + rhs.x <= i32::MAX && i32::MIN <= self.y + rhs.y <= i32::MAX
    }

    open spec fn add_spec(self, rhs: Point) -> Point {
        Point { x: (self.x + rhs.x) as i32, y: (self.y + rhs.y) as i32 }
    }
}

impl std::ops::Sub for Point {
    type Output = Point;

    fn sub(self, rhs: Point) -> (r: Point)
        ensures
            r.x == self.x - rhs.x,
            r.y == self.y - rhs.y,
    {
        Point { x: self.x - rhs.x, y: self.y - rhs.y }
    }
}

impl vstd::std_specs::ops::SubSpecImpl for Point {
    open spec fn obeys_sub_spec() -> bool {
        true
    }

    open spec fn sub_req(self, rhs: Point) -> bool {
        i32::MIN <= self.x - rhs.x <= i32::MAX && i32::MIN <= self.y - rhs.y <= i32::MAX
    }

    open spec fn sub_spec(self, rhs: Point) -> Point {
        Point { x: (self.x - rhs.x) as i32, y: (self.y - rhs.y) as i32 }
    }
}

impl<'a> std::ops::Sub for &'a Point {
    type Output = Point;

    fn sub(self, rhs: &'a Point) -> (r: Point)
        ensures
            r.x == self.x - rhs.x,
            r.y == self.y - rhs.y,
    {
        Point { x: self.x - rhs.x, y: self.y - rhs.y }
    }
}

impl<'a> vstd::std_specs::ops::SubSpecImpl for &'a Point {
    open spec fn obeys_sub_spec() -> bool {
        true
    }

    open spec fn sub_req(self, rhs: &'a Point) -> bool {
        i32::MIN <= self.x - rhs.x <= i32::MAX && i32::MIN <= self.y - rhs.y <= i32::MAX
    }

    open spec fn sub_spec(self, rhs: &'a Point) -> Point {
        Point { x: (self.x - rhs.x) as i32, y: (self.y - rhs.y) as i32 }
    }
}

impl From<(i32, i32)> for Point {
    fn from(p: (i32, i32)) -> (r: Point)
        ensures
            r.x == p.0,
            r.y == p.1,
    {
        Point { x: p.0, y: p.1 }
    }
}

impl vstd::std_specs::convert::FromSpecImpl<(i32, i32)> for Point {
    open spec fn obeys_from_spec() -> bool {
        true
    }

    open spec fn from_spec(p: (i32, i32)) -> Point {
        Point { x: p.0, y: p.1 }
    }
}

/// A closed interval of grid coordinates.
#[derive(Debug)]
pub struct Range {
    min: i32,
    max: i32,
}

impl View for Range {
    type V = (int, int);

    closed spec fn view(&self) -> (int, int) {
        (self.min as int, self.max as int)
    }
}

impl Range {
    #[verifier::type_invariant]
    spec fn ordered(self) -> bool {
        self.min <= self.max
    }

    pub fn new(min: i32, max: i32) -> (r: Range)
        requires
            min <= max,
        ensures
            r@ == (min as int, max as int),
    {
        Range { min, max }
    }

    pub fn min(&self) -> (r: i32)
        ensures
            r == self@.0,
    {
        self.min
    }

    pub fn max(&self) -> (r: i32)
        ensures
            r == self@.1,
    {
        self.max
    }

    pub fn width(&self) -> (r: u32)
        ensures
            r == self@.1 - self@.0,
    {
        proof {
            use_type_invariant(self);
        }
        (self.max as i64 - self.min as i64) as u32
    }

    /// Reduce the length of the range by `x` on both sides.
    pub fn subtract_both(&self, x: u32) -> (r: Range)
        requires
            self@.0 + x <= self@.1 - x,
        ensures
            r@ == (self@.0 + x, self@.1 - x),
    {
        Range::new((self.min as i64 + x as i64) as i32, (self.max as i64 - x as i64) as i32)
    }
}

} // verus!
