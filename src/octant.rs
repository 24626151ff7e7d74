//! The eight octants of a line: a line is drawn in the first octant and
//! mapped back to its own.
use vstd::prelude::*;
use crate::graphics::Point;

verus! {

/// One of the eight octants, numbered 0 to 7.
pub struct Octant {
    pub value: u8,
}

/// The octant of the direction `(dx, dy)`: 4 is added when `dy < 0` (the
/// direction is then negated), 2 when the x part is then still negative
/// (it is then turned a quarter), 1 when it is then steeper than diagonal.
pub open spec fn octant_of(dx: int, dy: int) -> int {
    let (dx1, dy1, v1) = if dy < 0 { (-dx, -dy, 4int) } else { (dx, dy, 0int) };
    let (dx2, dy2, v2) = if dx1 < 0 { (dy1, -dx1, v1 + 2) } else { (dx1, dy1, v1) };
    if dx2 < dy2 { v2 + 1 } else { v2 }
}

/// The coordinates are far enough from the edge of `isize` to be negated and
/// subtracted.
pub open spec fn small_point(p: Point<isize>) -> bool {
    -0x4000_0000 < p.x < 0x4000_0000 && -0x4000_0000 < p.y < 0x4000_0000
}

/// Both coordinates can be negated.
pub open spec fn negatable(p: Point<isize>) -> bool {
    p.x > isize::MIN && p.y > isize::MIN
}

/// A point moved into octant `o` from octant 0.
pub open spec fn to_octant(o: int, p: Point<isize>) -> (int, int) {
    if o == 0 { (p.x as int, p.y as int) }
    else if o == 1 { (p.y as int, p.x as int) }
    else if o == 2 { (p.y as int, -p.x) }
    else if o == 3 { (-p.x, p.y as int) }
    else if o == 4 { (-p.x, -p.y) }
    else if o == 5 { (-p.y, -p.x) }
    else if o == 6 { (-p.y, p.x as int) }
    else { (p.x as int, -p.y) }
}

/// A point moved back from octant `o` to octant 0.
pub open spec fn from_octant(o: int, p: Point<isize>) -> (int, int) {
    if o == 0 { (p.x as int, p.y as int) }
    else if o == 1 { (p.y as int, p.x as int) }
    else if o == 2 { (-p.y, p.x as int) }
    else if o == 3 { (-p.x, p.y as int) }
    else if o == 4 { (-p.x, -p.y) }
    else if o == 5 { (-p.y, -p.x) }
    else if o == 6 { (p.y as int, -p.x) }
    else { (p.x as int, -p.y) }
}

impl Octant {
    /// The octant is one of the eight.
    pub open spec fn wf(&self) -> bool {
        self.value < 8
    }

    /// The octant of the line from `start` to `end`.
    pub fn new(start: Point<isize>, end: Point<isize>) -> (r: Octant)
        requires
            small_point(start),
            small_point(end),
        ensures
            r.wf(),
            r.value == octant_of(end.x - start.x, end.y - start.y),
    {
        let mut value: u8 = 0;
        let mut dx: isize = end.x - start.x;
        let mut dy: isize = end.y - start.y;
        if dy < 0 {
            dx = -dx;
            dy = -dy;
            value = value + 4;
        }
        if dx < 0 {
            let tmp: isize = dx;
            dx = dy;
            dy = -tmp;
            value = value + 2;
        }
        if dx < dy {
            value = value + 1;
        }
        Octant { value }
    }

    /// Moves a point of octant 0 into this octant.
    pub fn to(&self, point: Point<isize>) -> (r: Point<isize>)
        requires
            self.wf(),
            negatable(point),
        ensures
            (r.x as int, r.y as int) == to_octant(self.value as int, point),
    {
        match self.value {
            0 => Point { x: point.x, y: point.y },
            1 => Point { x: point.y, y: point.x },
            2 => Point { x: point.y, y: -point.x },
            3 => Point { x: -point.x, y: point.y },
            4 => Point { x: -point.x, y: -point.y },
            5 => Point { x: -point.y, y: -point.x },
            6 => Point { x: -point.y, y: point.x },
            _ => Point { x: point.x, y: -point.y },
        }
    }

    /// Moves a point of this octant back into octant 0.
    pub fn from(&self, point: Point<isize>) -> (r: Point<isize>)
        requires
            self.wf(),
            negatable(point),
        ensures
            (r.x as int, r.y as int) == from_octant(self.value as int, point),
    {
        match self.value {
            0 => Point { x: point.x, y: point.y },
            1 => Point { x: point.y, y: point.x },
            2 => Point { x: -point.y, y: point.x },
            3 => Point { x: -point.x, y: point.y },
            4 => Point { x: -point.x, y: -point.y },
            5 => Point { x: -point.y, y: -point.x },
            6 => Point { x: point.y, y: -point.x },
            _ => Point { x: point.x, y: -point.y },
        }
    }
}

} // verus!
