//! Grid cells and directions.

use rand::Rng;
use vstd::prelude::*;

verus! {

/// Width of the arena: cells with `x <= 1` or `x >= WIDTH` are border cells.
pub const WIDTH: u16 = 60;

/// Height of the arena: cells with `y <= 1` or `y >= HEIGHT` are border cells.
pub const HEIGHT: u16 = 21;

/// A cell of the grid.
#[derive(Clone, Copy, PartialEq, Eq, Structural, Debug)]
pub struct Point {
    pub x: u16,
    pub y: u16,
}

/// One of the four directions of travel.
#[derive(Clone, Copy, PartialEq, Eq, Structural, Debug)]
pub enum Direction {
    Up,
    Down,
    Left,
    Right,
}

/// The direction pointing the other way.
pub open spec fn opposite(d: Direction) -> Direction {
    match d {
        Direction::Up => Direction::Down,
        Direction::Down => Direction::Up,
        Direction::Left => Direction::Right,
        Direction::Right => Direction::Left,
    }
}

/// The neighbour of `p` in direction `d` stays on the `u16` grid.
pub open spec fn can_move(p: Point, d: Direction) -> bool {
    match d {
        Direction::Up => p.y >= 1,
        Direction::Down => p.y < u16::MAX,
        Direction::Left => p.x >= 1,
        Direction::Right => p.x < u16::MAX,
    }
}

/// The neighbour of `p` in direction `d` (`Up` decreases `y`).
pub open spec fn next_cell(p: Point, d: Direction) -> Point {
    match d {
        Direction::Up => Point { x: p.x, y: (p.y - 1) as u16 },
        Direction::Down => Point { x: p.x, y: (p.y + 1) as u16 },
        Direction::Left => Point { x: (p.x - 1) as u16, y: p.y },
        Direction::Right => Point { x: (p.x + 1) as u16, y: p.y },
    }
}

/// A cell strictly inside the arena's one-cell margin.
pub open spec fn is_inside(p: Point) -> bool {
    2 <= p.x < WIDTH && 2 <= p.y < HEIGHT
}

/// A cell on or beyond the arena's border margin.
pub open spec fn on_border(p: Point) -> bool {
    p.x <= 1 || p.y <= 1 || p.x >= WIDTH || p.y >= HEIGHT
}

/// Relies on rand's `Rng::gen_range` on the thread-local generator: a value in
/// `[low, high)`; it panics when `low >= high`.
#[verifier::external_body]
pub(crate) fn random_below(low: u16, high: u16) -> (r: u16)
    requires
        low < high,
    ensures
        low <= r < high,
{
    rand::thread_rng().gen_range(low, high)
}

impl Point {
    pub fn new(x: u16, y: u16) -> (r: Point)
        ensures
            r == (Point { x, y }),
    {
        Point { x, y }
    }

    /// The cell next to `p` in direction `d`.
    pub fn next_point(p: &Point, d: &Direction) -> (r: Point)
        requires
            can_move(*p, *d),
        ensures
            r == next_cell(*p, *d),
    {
        match d {
            Direction::Up => Point::new(p.x, p.y - 1),
            Direction::Down => Point::new(p.x, p.y + 1),
            Direction::Left => Point::new(p.x - 1, p.y),
            Direction::Right => Point::new(p.x + 1, p.y),
        }
    }

    /// A uniformly drawn cell inside the arena's margin, where food is placed.
    pub fn random() -> (r: Point)
        ensures
            is_inside(r),
    {
        let rx = random_below(2, WIDTH);
        let ry = random_below(2, HEIGHT);
        Point::new(rx, ry)
    }

    /// The signed offsets `p1 - p2` on each axis.
    pub fn sub(p1: &Point, p2: &Point) -> (r: (i16, i16))
        requires
            p1.x <= i16::MAX,
            p1.y <= i16::MAX,
            p2.x <= i16::MAX,
            p2.y <= i16::MAX,
        ensures
            r.0 == p1.x - p2.x,
            r.1 == p1.y - p2.y,
    {
        (p1.x as i16 - p2.x as i16, p1.y as i16 - p2.y as i16)
    }
}

} // verus!
