//! Snakes: movement, growth, body membership, spawn placement and the bots'
//! steering policies.

use crate::geometry::{
    can_move, next_cell, opposite, random_below, Direction, Point, HEIGHT, WIDTH,
};
use vstd::prelude::*;

verus! {

/// The largest number of snakes in one game.
pub const MAX_SNAKES: u32 = 4;

/// A snake: its head, its body (tail at index 0, the head not included) and
/// its direction of travel.
#[derive(Clone, Debug)]
pub struct Snake {
    pub id: u32,
    pub head: Point,
    pub body: Vec<Point>,
    pub direction: Direction,
}

/// The mathematical value of a `Snake`.
pub struct SnakeView {
    pub id: u32,
    pub head: Point,
    pub body: Seq<Point>,
    pub direction: Direction,
}

impl View for Snake {
    type V = SnakeView;

    open spec fn view(&self) -> SnakeView {
        SnakeView { id: self.id, head: self.head, body: self.body@, direction: self.direction }
    }
}

/// The direction after asking to turn from `current` to `requested`: a
/// reversal is refused, every other request is taken.
pub open spec fn turned(current: Direction, requested: Direction) -> Direction {
    if requested == opposite(current) {
        current
    } else {
        requested
    }
}

/// The body after one step: the old head joins the body at its front end and,
/// unless the snake grows, the oldest cell leaves it.
pub open spec fn stepped_body(s: SnakeView, grow: bool) -> Seq<Point> {
    if grow {
        s.body.push(s.head)
    } else {
        s.body.push(s.head).drop_first()
    }
}

/// The snake after one step in its direction.
pub open spec fn stepped(s: SnakeView, grow: bool) -> SnakeView {
    SnakeView {
        id: s.id,
        head: next_cell(s.head, s.direction),
        body: stepped_body(s, grow),
        direction: s.direction,
    }
}

/// The direction given by a draw `n` among `1..=4`.
pub open spec fn drawn_direction(n: int) -> Direction {
    if n == 1 {
        Direction::Up
    } else if n == 2 {
        Direction::Right
    } else if n == 3 {
        Direction::Down
    } else {
        Direction::Left
    }
}

/// The direction to take to move along `y` towards a target at offset `dy`.
pub open spec fn align_y(dy: int) -> Direction {
    if dy < 0 {
        Direction::Up
    } else {
        Direction::Down
    }
}

/// The direction to take to move along `x` towards a target at offset `dx`.
pub open spec fn align_x(dx: int) -> Direction {
    if dx < 0 {
        Direction::Left
    } else {
        Direction::Right
    }
}

pub open spec fn abs(v: int) -> int {
    if v < 0 {
        -v
    } else {
        v
    }
}

/// The greedy chase of the food: move along the axis with the larger distance,
/// unless that move reverses the current direction; then align the other axis.
pub open spec fn toward_food(head: Point, current: Direction, food: Point) -> Direction {
    let dx = food.x - head.x;
    let dy = food.y - head.y;
    if abs(dx) >= abs(dy) {
        if current != opposite(align_x(dx)) {
            align_x(dx)
        } else {
            align_y(dy)
        }
    } else {
        if current != opposite(align_y(dy)) {
            align_y(dy)
        } else {
            align_x(dx)
        }
    }
}

/// The floor (horizontal band) on which snake `id` spawns.
pub open spec fn spawn_y(nb_players: u32, id: u32) -> u16 {
    let floor: int = (id + 1) / 2;
    let floors: int = (nb_players + 1) / 2 + 1;
    (floor * (HEIGHT as int / floors)) as u16
}

/// The snake with id `id` at the start of a game of `nb_players` snakes: odd
/// ids on the left facing right, even ids on the right facing left, one body
/// cell behind the head.
pub open spec fn spawn(nb_players: u32, id: u32) -> SnakeView {
    let y = spawn_y(nb_players, id);
    if id % 2 == 0 {
        SnakeView {
            id,
            head: Point { x: (WIDTH * 3 / 4) as u16, y },
            body: seq![Point { x: (WIDTH * 3 / 4 + 1) as u16, y }],
            direction: Direction::Left,
        }
    } else {
        SnakeView {
            id,
            head: Point { x: (WIDTH / 4) as u16, y },
            body: seq![Point { x: (WIDTH / 4 - 1) as u16, y }],
            direction: Direction::Right,
        }
    }
}

impl Snake {
    /// Turns towards `d`, unless `d` is the reverse of the current direction.
    pub fn change_direction(&mut self, d: Direction)
        ensures
            final(self).direction == turned(old(self).direction, d),
            final(self).id == old(self).id,
            final(self).head == old(self).head,
            final(self).body@ == old(self).body@,
    {
        match (self.direction, d) {
            (Direction::Up, Direction::Down) => {},
            (Direction::Down, Direction::Up) => {},
            (Direction::Left, Direction::Right) => {},
            (Direction::Right, Direction::Left) => {},
            (_, d) => self.direction = d,
        }
    }

    /// The direction for the draw `n`: Up, Right, Down, Left for 1 to 4.
    pub fn direction_of_draw(n: u16) -> (d: Direction)
        requires
            1 <= n <= 4,
        ensures
            d == drawn_direction(n as int),
    {
        if n == 1 {
            Direction::Up
        } else if n == 2 {
            Direction::Right
        } else if n == 3 {
            Direction::Down
        } else {
            Direction::Left
        }
    }

    /// Takes a direction drawn uniformly among the four.
    pub fn move_randomly(&mut self)
        ensures
            exists|n: int| 1 <= n <= 4 && final(self).direction == drawn_direction(n),
            final(self).id == old(self).id,
            final(self).head == old(self).head,
            final(self).body@ == old(self).body@,
    {
        let n = random_below(1, 5);
        self.direction = Snake::direction_of_draw(n);
        proof {
            assert(1 <= n as int <= 4 && self.direction == drawn_direction(n as int));
        }
    }

    /// Steers greedily towards `food`.
    pub fn move_to_food(&mut self, food: &Point)
        requires
            old(self).head.x <= i16::MAX,
            old(self).head.y <= i16::MAX,
            food.x <= i16::MAX,
            food.y <= i16::MAX,
        ensures
            final(self).direction == toward_food(old(self).head, old(self).direction, *food),
            final(self).id == old(self).id,
            final(self).head == old(self).head,
            final(self).body@ == old(self).body@,
    {
        let (x_dist, y_dist) = Point::sub(food, &self.head);
        let ax: i16 = if x_dist < 0 { -x_dist } else { x_dist };
        let ay: i16 = if y_dist < 0 { -y_dist } else { y_dist };
        if ax >= ay {
            if x_dist < 0 {
                if self.direction != Direction::Right {
                    self.direction = Direction::Left;
                } else {
                    self.move_to_food_y(y_dist);
                }
            } else {
                if self.direction != Direction::Left {
                    self.direction = Direction::Right;
                } else {
                    self.move_to_food_y(y_dist);
                }
            }
        } else {
            if y_dist < 0 {
                if self.direction != Direction::Down {
                    self.direction = Direction::Up;
                } else {
                    self.move_to_food_x(x_dist);
                }
            } else {
                if self.direction != Direction::Up {
                    self.direction = Direction::Down;
                } else {
                    self.move_to_food_x(x_dist);
                }
            }
        }
    }

    /// Moves along `y` towards a target at offset `y_dist`.
    pub fn move_to_food_y(&mut self, y_dist: i16)
        ensures
            final(self).direction == align_y(y_dist as int),
            final(self).id == old(self).id,
            final(self).head == old(self).head,
            final(self).body@ == old(self).body@,
    {
        if y_dist < 0 {
            self.direction = Direction::Up;
        } else {
            self.direction = Direction::Down;
        }
    }

    /// Moves along `x` towards a target at offset `x_dist`.
    pub fn move_to_food_x(&mut self, x_dist: i16)
        ensures
            final(self).direction == align_x(x_dist as int),
            final(self).id == old(self).id,
            final(self).head == old(self).head,
            final(self).body@ == old(self).body@,
    {
        if x_dist < 0 {
            self.direction = Direction::Left;
        } else {
            self.direction = Direction::Right;
        }
    }

    /// Moves one cell in the current direction, growing by one cell if `grow`.
    pub fn step(&mut self, grow: bool)
        requires
            can_move(old(self).head, old(self).direction),
        ensures
            final(self)@ == stepped(old(self)@, grow),
    {
        self.body.push(self.head);
        if !grow {
            self.body.remove(0);
        }
        self.head = Point::next_point(&self.head, &self.direction);
        proof {
            assert(self.body@ =~= stepped_body(old(self)@, grow));
        }
    }

    /// Whether `p` is one of the body's cells (the head is not part of it).
    pub fn is_in_body(&self, p: &Point) -> (r: bool)
        ensures
            r == self.body@.contains(*p),
    {
        let mut i: usize = 0;
        while i < self.body.len()
            invariant
                0 <= i <= self.body@.len(),
                forall|k: int| 0 <= k < i ==> self.body@[k] != *p,
            decreases self.body@.len() - i,
        {
            if self.body[i] == *p {
                return true;
            }
            i += 1;
        }
        false
    }

    pub fn is_player_nb(&self, id: u32) -> (r: bool)
        ensures
            r == (self.id == id),
    {
        self.id == id
    }

    /// The snake `player_nb` at the start of a game of `nb_players` snakes.
    pub fn init(nb_players: u32, player_nb: u32) -> (r: Snake)
        requires
            1 <= player_nb <= nb_players <= MAX_SNAKES,
        ensures
            r@ == spawn(nb_players, player_nb),
    {
        let floor: u16 = (player_nb as u16 + 1) / 2;
        let total_nb_of_floors: u16 = ((nb_players + 1) / 2) as u16 + 1;
        let size_of_floor: u16 = HEIGHT / total_nb_of_floors;
        assert(floor * size_of_floor <= 2 * 21) by (nonlinear_arith)
            requires
                floor <= 2,
                size_of_floor <= 21,
        ;
        let y: u16 = floor * size_of_floor;
        let x: u16;
        let direction: Direction;
        let body_x: u16;
        if player_nb % 2 == 0 {
            x = WIDTH * 3 / 4;
            direction = Direction::Left;
            body_x = x + 1;
        } else {
            x = WIDTH / 4;
            direction = Direction::Right;
            body_x = x - 1;
        }
        let r = Snake {
            id: player_nb,
            head: Point::new(x, y),
            body: vec![Point::new(body_x, y)],
            direction,
        };
        proof {
            assert(r.body@ =~= seq![Point { x: body_x, y }]);
        }
        r
    }
}

} // verus!
