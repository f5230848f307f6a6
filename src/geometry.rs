pub mod math;

pub use self::math::{dist2, Point, Range};
use vstd::prelude::*;

verus! {

/// What a circle is, as a centre and a radius in grid steps.
pub ghost struct CircleModel {
    pub x: int,
    pub y: int,
    pub r: int,
}

/// What a rectangle is, as its four edges in grid coordinates.
pub ghost struct RectModel {
    pub left: int,
    pub right: int,
    pub bottom: int,
    pub top: int,
}

/// `v` moved into `lo..=hi`, where `lo <= hi`.
pub open spec fn clamp(v: int, lo: int, hi: int) -> int {
    if v <= lo {
        lo
    } else if v >= hi {
        hi
    } else {
        v
    }
}

impl CircleModel {
    /// The two discs share at least one point: touching counts.
    pub open spec fn collides(self, o: CircleModel) -> bool {
        dist2(self.x, self.y, o.x, o.y) <= (self.r + o.r) * (self.r + o.r)
    }

    /// The point of `rect` closest to the centre lies within the radius.
    pub open spec fn collides_rect(self, rect: RectModel) -> bool {
        dist2(self.x, self.y, clamp(self.x, rect.left, rect.right), clamp(self.y, rect.bottom, rect.top))
            <= self.r * self.r
    }
}

impl RectModel {
    pub open spec fn wf(self) -> bool {
        self.left <= self.right && self.bottom <= self.top
    }

    pub open spec fn width(self) -> int {
        self.right - self.left
    }

    pub open spec fn height(self) -> int {
        self.top - self.bottom
    }

    pub open spec fn area(self) -> int {
        self.width() * self.height()
    }

    pub open spec fn center_x(self) -> int {
        self.left + self.width() / 2
    }

    pub open spec fn center_y(self) -> int {
        self.bottom + self.height() / 2
    }

    pub open spec fn contains_point(self, x: int, y: int) -> bool {
        self.left <= x <= self.right && self.bottom <= y <= self.top
    }

    /// The disc lies in the rectangle: its centre is at least a radius away
    /// from every edge.
    pub open spec fn contains_circle(self, c: CircleModel) -> bool {
        self.left + c.r <= c.x <= self.right - c.r && self.bottom + c.r <= c.y <= self.top - c.r
    }

    pub open spec fn contains_rect(self, o: RectModel) -> bool {
        self.left <= o.left && o.right <= self.right && self.bottom <= o.bottom && o.top
            <= self.top
    }

    /// The two closed rectangles share at least one point.
    pub open spec fn overlaps(self, o: RectModel) -> bool {
        self.right >= o.left && self.left <= o.right && self.top >= o.bottom && self.bottom
            <= o.top
    }

    /// No point lies strictly inside both rectangles.
    pub open spec fn interiors_disjoint(self, o: RectModel) -> bool {
        self.right <= o.left || o.right <= self.left || self.top <= o.bottom || o.top
            <= self.bottom
    }

    /// The two halves of a cut across the longer side (across the width when
    /// it is strictly the longer), at the midpoint rounded down; the left (or
    /// bottom) half comes first.
    pub open spec fn halves(self) -> (RectModel, RectModel) {
        if self.width() > self.height() {
            let m = self.left + self.width() / 2;
            (RectModel { right: m, ..self }, RectModel { left: m, ..self })
        } else {
            let m = self.bottom + self.height() / 2;
            (RectModel { top: m, ..self }, RectModel { bottom: m, ..self })
        }
    }
}

/// The zones of a partition into `n` parts: the rectangle itself for one part;
/// otherwise its two halves, partitioned in turn into the larger and the
/// smaller half of `n`, the first half's zones before the second's.
pub open spec fn partition_spec(r: RectModel, n: nat) -> Seq<RectModel>
    decreases n,
{
    if n <= 1 {
        seq![r]
    } else {
        let (a, b) = r.halves();
        partition_spec(a, (n - n / 2) as nat) + partition_spec(b, n / 2)
    }
}

/// The total area of a sequence of rectangles.
pub open spec fn area_sum(s: Seq<RectModel>) -> int
    decreases s.len(),
{
    if s.len() == 0 {
        0
    } else {
        area_sum(s.drop_last()) + s.last().area()
    }
}

proof fn lemma_area_sum_concat(s: Seq<RectModel>, t: Seq<RectModel>)
    ensures
        area_sum(s + t) == area_sum(s) + area_sum(t),
    decreases t.len(),
{
    if t.len() > 0 {
        assert((s + t).drop_last() =~= s + t.drop_last());
        lemma_area_sum_concat(s, t.drop_last());
    }
}

proof fn lemma_halves(r: RectModel)
    requires
        r.wf(),
    ensures
        r.halves().0.wf(),
        r.halves().1.wf(),
        r.contains_rect(r.halves().0),
        r.contains_rect(r.halves().1),
        r.halves().0.interiors_disjoint(r.halves().1),
        r.halves().0.area() + r.halves().1.area() == r.area(),
{
    let (a, b) = r.halves();
    if r.width() > r.height() {
        let h = r.height();
        assert(a.width() * h + b.width() * h == (a.width() + b.width()) * h) by (nonlinear_arith);
    } else {
        let w = r.width();
        assert(w * a.height() + w * b.height() == w * (a.height() + b.height()))
            by (nonlinear_arith);
    }
}

/// Partitioning a rectangle into `n` zones tiles it: there are exactly `n`
/// zones, each a well-formed rectangle inside the original, no two of them
/// share an interior point, and their areas add up to the original's area.
pub proof fn lemma_partition_tiles(r: RectModel, n: nat)
    requires
        r.wf(),
        n >= 1,
    ensures
        partition_spec(r, n).len() == n,
        forall|i: int|
            #![trigger partition_spec(r, n)[i]]
            0 <= i < n ==> partition_spec(r, n)[i].wf() && r.contains_rect(partition_spec(r, n)[i]),
        forall|i: int, j: int|
            0 <= i < j < n ==> #[trigger] partition_spec(r, n)[i].interiors_disjoint(
                #[trigger] partition_spec(r, n)[j],
            ),
        area_sum(partition_spec(r, n)) == r.area(),
    decreases n,
{
    if n == 1 {
        assert(seq![r].drop_last() =~= Seq::<RectModel>::empty());
        assert(area_sum(Seq::<RectModel>::empty()) == 0);
        assert(area_sum(seq![r]) == r.area());
    } else {
        let (a, b) = r.halves();
        let k = (n - n / 2) as nat;
        let l = n / 2;
        lemma_halves(r);
        lemma_partition_tiles(a, k);
        lemma_partition_tiles(b, l);
        let pa = partition_spec(a, k);
        let pb = partition_spec(b, l);
        let p = partition_spec(r, n);
        assert(p == pa + pb);
        lemma_area_sum_concat(pa, pb);
        assert forall|i: int| 0 <= i < n implies #[trigger] p[i].wf() && r.contains_rect(p[i]) by {
            if i < k {
                assert(p[i] == pa[i]);
                assert(pa[i].wf() && a.contains_rect(pa[i]));
            } else {
                assert(p[i] == pb[i - k]);
                assert(pb[i - k].wf() && b.contains_rect(pb[i - k]));
            }
        }
        assert forall|i: int, j: int| 0 <= i < j < n implies #[trigger] p[i].interiors_disjoint(
            #[trigger] p[j],
        ) by {
            if j < k {
                assert(p[i] == pa[i] && p[j] == pa[j]);
            } else if i >= k {
                assert(p[i] == pb[i - k] && p[j] == pb[j - k]);
            } else {
                assert(p[i] == pa[i] && p[j] == pb[j - k]);
                assert(a.contains_rect(pa[i]));
                assert(b.contains_rect(pb[j - k]));
            }
        }
    }
}

/// Collision between two circles does not depend on the order in which they
/// are named.
pub proof fn lemma_collides_symmetric(a: CircleModel, b: CircleModel)
    ensures
        a.collides(b) == b.collides(a),
{
    assert((a.x - b.x) * (a.x - b.x) == (b.x - a.x) * (b.x - a.x)) by (nonlinear_arith);
    assert((a.y - b.y) * (a.y - b.y) == (b.y - a.y) * (b.y - a.y)) by (nonlinear_arith);
}

/// A circle of the grid with a positive radius.
#[derive(Clone, Copy, Debug)]
pub struct Circle {
    pos: Point,
    radius: u32,
}

impl View for Circle {
    type V = CircleModel;

    closed spec fn view(&self) -> CircleModel {
        CircleModel { x: self.pos.x as int, y: self.pos.y as int, r: self.radius as int }
    }
}

impl Circle {
    #[verifier::type_invariant]
    spec fn positive_radius(self) -> bool {
        self.radius > 0
    }

    pub fn radius(&self) -> (r: u32)
        ensures
            r == self@.r,
            r > 0,
    {
        proof {
            use_type_invariant(self);
        }
        self.radius
    }

    pub fn new(pos: Point, radius: u32) -> (r: Circle)
        requires
            radius > 0,
        ensures
            r@ == (CircleModel { x: pos.x as int, y: pos.y as int, r: radius as int }),
    {
        Circle { pos, radius }
    }

    pub fn pos(&self) -> (r: &Point)
        ensures
            r.x == self@.x,
            r.y == self@.y,
    {
        &self.pos
    }

    /// True when the two circles share a point: touching counts.
    pub fn collision_circle(&self, other: &Circle) -> (r: bool)
        ensures
            r == self@.collides(other@),
    {
        let d = self.pos.distance_squared(&other.pos);
        let s = self.radius as u64 + other.radius as u64;
        proof {
            assert(s * s <= 0x4_0000_0000_0000_0000) by (nonlinear_arith)
                requires
                    s <= 0x2_0000_0000,
            ;
        }
        d <= (s as u128) * (s as u128)
    }

    /// True when the circle and the rectangle share a point.
    pub fn collision_rec(&self, other: &Rectangle) -> (r: bool)
        ensures
            r == self@.collides_rect(other@),
    {
        proof {
            use_type_invariant(other);
        }
        let x_pos = if self.pos.x <= other.left {
            other.left
        } else if self.pos.x >= other.right {
            other.right
        } else {
            self.pos.x
        };
        let y_pos = if self.pos.y <= other.bottom {
            other.bottom
        } else if self.pos.y >= other.top {
            other.top
        } else {
            self.pos.y
        };
        let d = self.pos.distance_squared(&Point::new(x_pos, y_pos));
        let r = self.radius as u64;
        proof {
            assert(r * r <= 0x1_0000_0000_0000_0000) by (nonlinear_arith)
                requires
                    r <= 0x1_0000_0000,
            ;
        }
        d <= (r as u128) * (r as u128)
    }
}

/// An axis-aligned rectangle of the grid, kept as its four edges.
#[derive(Clone, Copy, Debug)]
pub struct Rectangle {
    left: i32,
    right: i32,
    bottom: i32,
    top: i32,
}

impl View for Rectangle {
    type V = RectModel;

    closed spec fn view(&self) -> RectModel {
        RectModel {
            left: self.left as int,
            right: self.right as int,
            bottom: self.bottom as int,
            top: self.top as int,
        }
    }
}

impl Rectangle {
    #[verifier::type_invariant]
    spec fn ordered(self) -> bool {
        self.left <= self.right && self.bottom <= self.top
    }

    /// The rectangle centred on `pos`; an odd extent puts the extra step on
    /// the right (or top) side.
    pub fn new(pos: Point, width: u32, height: u32) -> (r: Rectangle)
        requires
            i32::MIN <= pos.x - width / 2,
            pos.x - width / 2 + width <= i32::MAX,
            i32::MIN <= pos.y - height / 2,
            pos.y - height / 2 + height <= i32::MAX,
        ensures
            r@ == (RectModel {
                left: pos.x - width / 2,
                right: pos.x - width / 2 + width,
                bottom: pos.y - height / 2,
                top: pos.y - height / 2 + height,
            }),
    {
        let left = (pos.x as i64 - (width / 2) as i64) as i32;
        let bottom = (pos.y as i64 - (height / 2) as i64) as i32;
        Rectangle {
            left,
            right: (left as i64 + width as i64) as i32,
            bottom,
            top: (bottom as i64 + height as i64) as i32,
        }
    }

    /// The centre, rounded down to the grid.
    pub fn pos_s(&self) -> (r: Point)
        ensures
            r.x == self@.center_x(),
            r.y == self@.center_y(),
    {
        self.pos()
    }

    pub fn width(&self) -> (r: u32)
        ensures
            r == self@.width(),
    {
        proof {
            use_type_invariant(self);
        }
        (self.right as i64 - self.left as i64) as u32
    }

    pub fn height(&self) -> (r: u32)
        ensures
            r == self@.height(),
    {
        proof {
            use_type_invariant(self);
        }
        (self.top as i64 - self.bottom as i64) as u32
    }

    pub fn left(&self) -> (r: i32)
        ensures
            r == self@.left,
    {
        self.left
    }

    pub fn right(&self) -> (r: i32)
        ensures
            r == self@.right,
    {
        self.right
    }

    pub fn top(&self) -> (r: i32)
        ensures
            r == self@.top,
    {
        self.top
    }

    pub fn bottom(&self) -> (r: i32)
        ensures
            r == self@.bottom,
    {
        self.bottom
    }

    /// The centre, rounded down to the grid.
    pub fn pos(&self) -> (r: Point)
        ensures
            r.x == self@.center_x(),
            r.y == self@.center_y(),
    {
        proof {
            use_type_invariant(self);
        }
        let x = (self.left as i64 + (self.right as i64 - self.left as i64) / 2) as i32;
        let y = (self.bottom as i64 + (self.top as i64 - self.bottom as i64) / 2) as i32;
        Point::new(x, y)
    }

    /// The horizontal extent, from the left edge to the right one.
    pub fn range_h(&self) -> (r: Range)
        ensures
            r@ == (self@.left, self@.right),
    {
        proof {
            use_type_invariant(self);
        }
        Range::new(self.left, self.right)
    }

    /// The vertical extent, from the bottom edge to the top one.
    pub fn range_v(&self) -> (r: Range)
        ensures
            r@ == (self@.bottom, self@.top),
    {
        proof {
            use_type_invariant(self);
        }
        Range::new(self.bottom, self.top)
    }

    /// The two halves of a cut across the longer side.
    fn halves(&self) -> (r: (Rectangle, Rectangle))
        ensures
            (r.0@, r.1@) == self@.halves(),
    {
        proof {
            use_type_invariant(self);
        }
        if self.width() > self.height() {
            let m = (self.left as i64 + (self.right as i64 - self.left as i64) / 2) as i32;
            (Rectangle { right: m, ..*self }, Rectangle { left: m, ..*self })
        } else {
            let m = (self.bottom as i64 + (self.top as i64 - self.bottom as i64) / 2) as i32;
            (Rectangle { top: m, ..*self }, Rectangle { bottom: m, ..*self })
        }
    }

    /// Partition the rectangle into `n` rectangles of near-equal area.
    pub fn partition(&self, n: u64) -> (parts: Vec<Rectangle>)
        requires
            n >= 1,
        ensures
            self@.wf(),
            parts@.map_values(|p: Rectangle| p@) == partition_spec(self@, n as nat),
        decreases n,
    {
        proof {
            use_type_invariant(self);
        }
        if n == 1 {
            let parts = vec![*self];
            proof {
                assert(parts@.map_values(|p: Rectangle| p@) =~= seq![self@]);
            }
            return parts;
        }
        let (a, b) = self.halves();
        let mut first = a.partition(n - n / 2);
        let mut second = b.partition(n / 2);
        let ghost f = first@;
        let ghost s = second@;
        first.append(&mut second);
        proof {
            assert(first@.map_values(|p: Rectangle| p@) =~= f.map_values(|p: Rectangle| p@)
                + s.map_values(|p: Rectangle| p@));
        }
        first
    }

    /// True when the two closed rectangles share a point.
    pub fn collision_rec(&self, other: &Rectangle) -> (r: bool)
        ensures
            r == self@.overlaps(other@),
    {
        self.right >= other.left && self.left <= other.right && self.top >= other.bottom
            && self.bottom <= other.top
    }

    /// True when the circle and the rectangle share a point.
    pub fn collision_circle(&self, other: &Circle) -> (r: bool)
        ensures
            r == other@.collides_rect(self@),
    {
        other.collision_rec(self)
    }

    /// True when the point lies in the closed rectangle.
    pub fn inside(&self, pos: &Point) -> (r: bool)
        ensures
            r == self@.contains_point(pos.x as int, pos.y as int),
    {
        self.left <= pos.x && pos.x <= self.right && self.bottom <= pos.y && pos.y <= self.top
    }

    /// True when the whole circle lies in the rectangle.
    pub fn circle_inside(&self, c: &Circle) -> (r: bool)
        ensures
            r == self@.contains_circle(c@),
    {
        let pos = c.pos();
        let radius = c.radius() as i64;
        self.left as i64 + radius <= pos.x as i64 && self.right as i64 - radius >= pos.x as i64
            && self.bottom as i64 + radius <= pos.y as i64 && self.top as i64 - radius
            >= pos.y as i64
    }
}

} // verus!
