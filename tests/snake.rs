use snake_arena::geometry::{Direction, Point};
use snake_arena::snake::Snake;

fn snake_at(x: u16, y: u16, body: Vec<Point>, direction: Direction) -> Snake {
    Snake { id: 1, head: Point::new(x, y), body, direction }
}

#[test]
fn reversal_is_refused() {
    let pairs = [
        (Direction::Up, Direction::Down),
        (Direction::Down, Direction::Up),
        (Direction::Left, Direction::Right),
        (Direction::Right, Direction::Left),
    ];
    for (current, requested) in pairs.iter() {
        let mut s = snake_at(10, 10, vec![Point::new(9, 10)], *current);
        s.change_direction(*requested);
        assert_eq!(s.direction, *current);
    }
}

#[test]
fn other_requests_are_taken() {
    let all = [Direction::Up, Direction::Down, Direction::Left, Direction::Right];
    for current in all.iter() {
        for requested in all.iter() {
            let reversal = matches!(
                (current, requested),
                (Direction::Up, Direction::Down)
                    | (Direction::Down, Direction::Up)
                    | (Direction::Left, Direction::Right)
                    | (Direction::Right, Direction::Left)
            );
            if !reversal {
                let mut s = snake_at(10, 10, vec![Point::new(9, 10)], *current);
                s.change_direction(*requested);
                assert_eq!(s.direction, *requested);
            }
        }
    }
}

#[test]
fn step_without_growth_shifts_body() {
    let mut s = snake_at(10, 10, vec![Point::new(8, 10), Point::new(9, 10)], Direction::Right);
    s.step(false);
    assert_eq!(s.head, Point::new(11, 10));
    assert_eq!(s.body, vec![Point::new(9, 10), Point::new(10, 10)]);
}

#[test]
fn step_with_growth_keeps_tail() {
    let mut s = snake_at(10, 10, vec![Point::new(10, 11)], Direction::Up);
    s.step(true);
    assert_eq!(s.head, Point::new(10, 9));
    assert_eq!(s.body, vec![Point::new(10, 11), Point::new(10, 10)]);
}

#[test]
fn body_membership() {
    let s = snake_at(10, 10, vec![Point::new(8, 10), Point::new(9, 10)], Direction::Right);
    assert!(s.is_in_body(&Point::new(8, 10)));
    assert!(s.is_in_body(&Point::new(9, 10)));
    assert!(!s.is_in_body(&Point::new(10, 10)));
    assert!(!s.is_in_body(&Point::new(7, 10)));
}

#[test]
fn player_number() {
    let s = snake_at(10, 10, vec![Point::new(9, 10)], Direction::Right);
    assert!(s.is_player_nb(1));
    assert!(!s.is_player_nb(2));
}

#[test]
fn spawn_two_players() {
    let s1 = Snake::init(2, 1);
    assert_eq!(s1.id, 1);
    assert_eq!(s1.head, Point::new(15, 10));
    assert_eq!(s1.body, vec![Point::new(14, 10)]);
    assert_eq!(s1.direction, Direction::Right);
    let s2 = Snake::init(2, 2);
    assert_eq!(s2.id, 2);
    assert_eq!(s2.head, Point::new(45, 10));
    assert_eq!(s2.body, vec![Point::new(46, 10)]);
    assert_eq!(s2.direction, Direction::Left);
}

#[test]
fn spawn_four_players_on_two_floors() {
    assert_eq!(Snake::init(4, 1).head, Point::new(15, 7));
    assert_eq!(Snake::init(4, 2).head, Point::new(45, 7));
    assert_eq!(Snake::init(4, 3).head, Point::new(15, 14));
    assert_eq!(Snake::init(4, 4).head, Point::new(45, 14));
    assert_eq!(Snake::init(3, 3).head, Point::new(15, 14));
    assert_eq!(Snake::init(3, 3).body, vec![Point::new(14, 14)]);
}

#[test]
fn chase_along_larger_axis() {
    let mut s = snake_at(10, 10, vec![Point::new(10, 11)], Direction::Up);
    s.move_to_food(&Point::new(2, 8));
    assert_eq!(s.direction, Direction::Left);
    let mut s = snake_at(10, 10, vec![Point::new(10, 11)], Direction::Up);
    s.move_to_food(&Point::new(12, 2));
    assert_eq!(s.direction, Direction::Up);
    let mut s = snake_at(10, 10, vec![Point::new(9, 10)], Direction::Right);
    s.move_to_food(&Point::new(11, 19));
    assert_eq!(s.direction, Direction::Down);
}

#[test]
fn chase_avoids_reversal() {
    // Food behind a snake heading right, and below it: align y first.
    let mut s = snake_at(30, 10, vec![Point::new(29, 10)], Direction::Right);
    s.move_to_food(&Point::new(5, 12));
    assert_eq!(s.direction, Direction::Down);
    // Food behind and above.
    let mut s = snake_at(30, 10, vec![Point::new(29, 10)], Direction::Right);
    s.move_to_food(&Point::new(5, 8));
    assert_eq!(s.direction, Direction::Up);
    // Food behind a snake heading down, to its left: align x first.
    let mut s = snake_at(30, 10, vec![Point::new(30, 9)], Direction::Down);
    s.move_to_food(&Point::new(28, 2));
    assert_eq!(s.direction, Direction::Left);
}

#[test]
fn align_single_axis() {
    let mut s = snake_at(30, 10, vec![Point::new(29, 10)], Direction::Right);
    s.move_to_food_y(-3);
    assert_eq!(s.direction, Direction::Up);
    s.move_to_food_y(4);
    assert_eq!(s.direction, Direction::Down);
    s.move_to_food_x(-1);
    assert_eq!(s.direction, Direction::Left);
    s.move_to_food_x(0);
    assert_eq!(s.direction, Direction::Right);
}

#[test]
fn random_move_keeps_position() {
    let mut seen_other = false;
    for _ in 0..200 {
        let mut s = snake_at(30, 10, vec![Point::new(29, 10)], Direction::Right);
        s.move_randomly();
        assert_eq!(s.head, Point::new(30, 10));
        assert_eq!(s.body, vec![Point::new(29, 10)]);
        if s.direction != Direction::Right {
            seen_other = true;
        }
    }
    assert!(seen_other);
}

#[test]
fn draws_map_to_directions() {
    assert_eq!(Snake::direction_of_draw(1), Direction::Up);
    assert_eq!(Snake::direction_of_draw(2), Direction::Right);
    assert_eq!(Snake::direction_of_draw(3), Direction::Down);
    assert_eq!(Snake::direction_of_draw(4), Direction::Left);
}
