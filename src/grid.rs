//! Grid coordinates, directions and the boundary policy.

use vstd::prelude::*;

verus! {

/// A cell of the grid.
#[derive(Clone, Copy, Debug, PartialEq, Eq, Structural)]
pub struct Position {
    pub x: i32,
    pub y: i32,
}

/// A direction of travel.
#[derive(Clone, Copy, Debug, PartialEq, Eq, Structural)]
pub enum Direction {
    Right,
    Left,
    Up,
    Down,
}

/// The fixed-size playing field and what happens at its edges.
#[derive(Clone, Copy, Debug, PartialEq, Eq, Structural)]
pub struct Grid {
    pub width: i32,
    pub height: i32,
    pub wrap_around: bool,
}

pub open spec fn opposite_spec(d: Direction) -> Direction {
    match d {
        Direction::Right => Direction::Left,
        Direction::Left => Direction::Right,
        Direction::Up => Direction::Down,
        Direction::Down => Direction::Up,
    }
}

impl Direction {
    /// The direction pointing the other way.
    pub fn opposite(self) -> (r: Direction)
        ensures
            r == opposite_spec(self),
    {
        match self {
            Direction::Right => Direction::Left,
            Direction::Left => Direction::Right,
            Direction::Up => Direction::Down,
            Direction::Down => Direction::Up,
        }
    }
}

/// The coordinates one cell away from `p` in direction `d`, before any boundary rule.
pub open spec fn moved(p: Position, d: Direction) -> (int, int) {
    match d {
        Direction::Right => (p.x + 1, p.y as int),
        Direction::Left => (p.x - 1, p.y as int),
        Direction::Up => (p.x as int, p.y - 1),
        Direction::Down => (p.x as int, p.y + 1),
    }
}

impl Grid {
    pub open spec fn wf(self) -> bool {
        self.width > 0 && self.height > 0
    }

    pub open spec fn contains(self, p: Position) -> bool {
        0 <= p.x < self.width && 0 <= p.y < self.height
    }

    /// Where coordinates `c` land under the boundary policy; `None` when they leave a
    /// grid without wrap-around. Wrapping is mathematical modulo.
    pub open spec fn resolve(self, c: (int, int)) -> Option<Position> {
        if self.wrap_around {
            Some(Position { x: (c.0 % (self.width as int)) as i32, y: (c.1 % (self.height as int)) as i32 })
        } else if 0 <= c.0 < self.width && 0 <= c.1 < self.height {
            Some(Position { x: c.0 as i32, y: c.1 as i32 })
        } else {
            None
        }
    }

    /// The cell the head would enter from `head` going `d`.
    pub open spec fn project_spec(self, head: Position, d: Direction) -> Option<Position> {
        self.resolve(moved(head, d))
    }

    /// Whether `p` lies on the grid.
    pub fn in_bounds(&self, p: Position) -> (r: bool)
        ensures
            r == self.contains(p),
    {
        0 <= p.x && p.x < self.width && 0 <= p.y && p.y < self.height
    }

    /// Computes the cell the head would enter from `head` going `d`.
    pub fn project(&self, head: Position, d: Direction) -> (r: Option<Position>)
        requires
            self.wf(),
            self.contains(head),
        ensures
            r == self.project_spec(head, d),
            r matches Some(p) ==> self.contains(p),
            self.wrap_around ==> r is Some,
    {
        let (cx, cy): (i32, i32) = match d {
            Direction::Right => (head.x + 1, head.y),
            Direction::Left => (head.x - 1, head.y),
            Direction::Up => (head.x, head.y - 1),
            Direction::Down => (head.x, head.y + 1),
        };
        if self.wrap_around {
            let x = wrap_coord(cx, self.width);
            let y = wrap_coord(cy, self.height);
            Some(Position { x, y })
        } else if 0 <= cx && cx < self.width && 0 <= cy && cy < self.height {
            Some(Position { x: cx, y: cy })
        } else {
            None
        }
    }
}

/// `c` modulo `n` for a coordinate at most one cell off the grid.
fn wrap_coord(c: i32, n: i32) -> (r: i32)
    requires
        n > 0,
        -1 <= c <= n,
    ensures
        r == c as int % n as int,
        0 <= r < n,
{
    if c < 0 {
        proof {
            assert((c as int) % (n as int) == n - 1) by (nonlinear_arith)
                requires c == -1, n > 0;
        }
        c + n
    } else if c >= n {
        proof {
            assert((c as int) % (n as int) == 0) by (nonlinear_arith)
                requires c == n, n > 0;
        }
        0
    } else {
        proof {
            assert((c as int) % (n as int) == c) by (nonlinear_arith)
                requires 0 <= c < n;
        }
        c
    }
}

} // verus!
