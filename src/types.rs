//! Grid coordinates and compass directions.

use vstd::prelude::*;

verus! {

/// One of the four moves a snake can make in a turn.
#[derive(Debug, Clone, Copy, PartialEq, Eq, Structural, Hash)]
pub enum Direction {
    Left,
    Right,
    Up,
    Down,
}

/// Horizontal displacement of one move in direction `d`.
pub open spec fn dir_dx(d: Direction) -> int {
    match d {
        Direction::Left => -1,
        Direction::Right => 1,
        _ => 0,
    }
}

/// Vertical displacement of one move in direction `d` (up is `+y`).
pub open spec fn dir_dy(d: Direction) -> int {
    match d {
        Direction::Up => 1,
        Direction::Down => -1,
        _ => 0,
    }
}

/// The four directions in the order in which the search tries them.
pub open spec fn all_directions() -> Seq<Direction> {
    seq![Direction::Left, Direction::Right, Direction::Up, Direction::Down]
}

pub open spec fn opposite_spec(d: Direction) -> Direction {
    match d {
        Direction::Left => Direction::Right,
        Direction::Right => Direction::Left,
        Direction::Up => Direction::Down,
        Direction::Down => Direction::Up,
    }
}

pub open spec fn abs_int(v: int) -> int {
    if v < 0 { -v } else { v }
}

/// The dominant-axis direction of the displacement `from -> to`; the
/// vertical axis wins ties, and a zero displacement has no direction.
pub open spec fn between_spec(from: Coord, to: Coord) -> Option<Direction> {
    let dx = to.x - from.x;
    let dy = to.y - from.y;
    if abs_int(dx) > abs_int(dy) {
        if dx > 0 { Some(Direction::Right) } else { Some(Direction::Left) }
    } else if dy > 0 {
        Some(Direction::Up)
    } else if dy < 0 {
        Some(Direction::Down)
    } else {
        None
    }
}

impl Direction {
    /// All four directions: left, right, up, down.
    pub fn iter() -> (r: Vec<Direction>)
        ensures
            r@ == all_directions(),
    {
        let r = vec![Direction::Left, Direction::Right, Direction::Up, Direction::Down];
        assert(r@ =~= all_directions());
        r
    }

    pub fn opposite(&self) -> (r: Direction)
        ensures
            r == opposite_spec(*self),
    {
        match self {
            Direction::Left => Direction::Right,
            Direction::Right => Direction::Left,
            Direction::Up => Direction::Down,
            Direction::Down => Direction::Up,
        }
    }

    /// Classifies the displacement between two cells as a direction.
    pub fn between(from: &Coord, to: &Coord) -> (r: Option<Direction>)
        requires
            i64::MIN < to.x - from.x <= i64::MAX,
            i64::MIN < to.y - from.y <= i64::MAX,
        ensures
            r == between_spec(*from, *to),
    {
        let dx = to.x - from.x;
        let dy = to.y - from.y;
        let adx = if dx < 0 { -dx } else { dx };
        let ady = if dy < 0 { -dy } else { dy };
        if adx > ady {
            if dx > 0 { Some(Direction::Right) } else { Some(Direction::Left) }
        } else if dy > 0 {
            Some(Direction::Up)
        } else if dy < 0 {
            Some(Direction::Down)
        } else {
            None
        }
    }
}

/// A cell of the grid; `(0, 0)` is the bottom-left corner.
#[derive(Debug, Clone, Copy, PartialEq, Eq, Structural, Hash)]
pub struct Coord {
    pub x: i64,
    pub y: i64,
}

/// The cell one move away from `c` in direction `d`.
pub open spec fn neighbour_spec(c: Coord, d: Direction) -> Coord {
    Coord { x: (c.x + dir_dx(d)) as i64, y: (c.y + dir_dy(d)) as i64 }
}

/// Whether the neighbour of `c` in direction `d` is representable.
pub open spec fn neighbour_fits(c: Coord, d: Direction) -> bool {
    &&& i64::MIN <= c.x + dir_dx(d) <= i64::MAX
    &&& i64::MIN <= c.y + dir_dy(d) <= i64::MAX
}

impl Coord {
    pub fn neighbour(&self, direction: Direction) -> (r: Coord)
        requires
            neighbour_fits(*self, direction),
        ensures
            r == neighbour_spec(*self, direction),
            r.x == self.x + dir_dx(direction),
            r.y == self.y + dir_dy(direction),
    {
        let dx: i64 = match direction {
            Direction::Right => 1,
            Direction::Left => -1,
            _ => 0,
        };
        let dy: i64 = match direction {
            Direction::Up => 1,
            Direction::Down => -1,
            _ => 0,
        };
        Coord { x: self.x + dx, y: self.y + dy }
    }
}

pub open spec fn manhattan_spec(a: Coord, b: Coord) -> int {
    abs_int(a.x - b.x) + abs_int(a.y - b.y)
}

/// The number of single moves between two cells on an open grid.
pub fn manhattan_distance(a: Coord, b: Coord) -> (r: i64)
    requires
        manhattan_spec(a, b) <= i64::MAX,
    ensures
        r == manhattan_spec(a, b),
{
    let dx: i128 = a.x as i128 - b.x as i128;
    let dy: i128 = a.y as i128 - b.y as i128;
    let adx: i128 = if dx < 0 { -dx } else { dx };
    let ady: i128 = if dy < 0 { -dy } else { dy };
    (adx + ady) as i64
}

/// When `head` is next to `neck`, the direction read from neck to head is the
/// reverse of the step from head to neck: a direction other than that reverse
/// cannot lead from the head onto the neck.
pub proof fn lemma_no_turn_onto_neck(neck: Coord, head: Coord, d: Direction)
    requires
        manhattan_spec(head, neck) == 1,
        between_spec(neck, head) != Some(opposite_spec(d)),
        neighbour_fits(head, d),
    ensures
        neighbour_spec(head, d) != neck,
{
    match d {
        Direction::Left => {}
        Direction::Right => {}
        Direction::Up => {}
        Direction::Down => {}
    }
}

} // verus!
