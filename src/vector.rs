use vstd::prelude::*;

verus! {

/// A point of the integer plane. Negative coordinates are meaningful: they
/// lie off the canvas, and every consumer handles them.
#[derive(Clone, Copy, Debug, PartialEq, Eq, Structural)]
pub struct Vec2 {
    pub x: i32,
    pub y: i32,
}

impl Vec2 {
    /// Constructs a point from its two coordinates.
    pub fn new(x: i32, y: i32) -> (r: Vec2)
        ensures
            r.x == x,
            r.y == y,
    {
        Vec2 { x, y }
    }

    /// The coordinates as unsigned values, each negative one raised to zero.
    pub fn as_u32_tuple(&self) -> (r: (u32, u32))
        ensures
            r.0 == if self.x < 0 { 0 } else { self.x as int },
            r.1 == if self.y < 0 { 0 } else { self.y as int },
    {
        let x: u32 = if self.x < 0 { 0 } else { self.x as u32 };
        let y: u32 = if self.y < 0 { 0 } else { self.y as u32 };
        (x, y)
    }
}

impl From<(i32, i32)> for Vec2 {
    /// An integer pair converts as it stands.
    fn from(p: (i32, i32)) -> (r: Vec2) {
        Vec2 { x: p.0, y: p.1 }
    }
}

impl vstd::std_specs::convert::FromSpecImpl<(i32, i32)> for Vec2 {
    open spec fn obeys_from_spec() -> bool {
        true
    }

    open spec fn from_spec(p: (i32, i32)) -> Vec2 {
        Vec2 { x: p.0, y: p.1 }
    }
}

impl std::ops::Add for Vec2 {
    type Output = Vec2;

    /// Component-wise sum.
    fn add(self, o: Vec2) -> (r: Vec2) {
        Vec2 { x: self.x + o.x, y: self.y + o.y }
    }
}

impl vstd::std_specs::ops::AddSpecImpl for Vec2 {
    open spec fn obeys_add_spec() -> bool {
        true
    }

    /// Both sums fit in `i32`.
    open spec fn add_req(self, o: Vec2) -> bool {
        i32::MIN <= self.x + o.x <= i32::MAX && i32::MIN <= self.y + o.y <= i32::MAX
    }

    open spec fn add_spec(self, o: Vec2) -> Vec2 {
        Vec2 { x: (self.x + o.x) as i32, y: (self.y + o.y) as i32 }
    }
}

impl std::ops::Sub for Vec2 {
    type Output = Vec2;

    /// Component-wise difference.
    fn sub(self, o: Vec2) -> (r: Vec2) {
        Vec2 { x: self.x - o.x, y: self.y - o.y }
    }
}

impl vstd::std_specs::ops::SubSpecImpl for Vec2 {
    open spec fn obeys_sub_spec() -> bool {
        true
    }

    /// Both differences fit in `i32`.
    open spec fn sub_req(self, o: Vec2) -> bool {
        i32::MIN <= self.x - o.x <= i32::MAX && i32::MIN <= self.y - o.y <= i32::MAX
    }

    open spec fn sub_spec(self, o: Vec2) -> Vec2 {
        Vec2 { x: (self.x - o.x) as i32, y: (self.y - o.y) as i32 }
    }
}

} // verus!
