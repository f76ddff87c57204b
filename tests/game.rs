use snake_arena::game::{BotMovement, Game, Input, PlayerStatus, TurnOutcome};
use snake_arena::geometry::{Direction, Point, HEIGHT, WIDTH};
use snake_arena::protocol::{slot_inputs, ClientMsg};

fn head(game: &Game, id: usize) -> Point {
    game.snakes[id - 1].as_ref().unwrap().head
}

fn body_len(game: &Game, id: usize) -> usize {
    game.snakes[id - 1].as_ref().unwrap().body.len()
}

fn playing(outcome: &TurnOutcome) -> Vec<u32> {
    match outcome {
        TurnOutcome::Playing(v) => v.clone(),
        TurnOutcome::End(_) => panic!("the match ended"),
    }
}

#[test]
fn init_rejects_too_many_snakes() {
    assert_eq!(Game::init(5, 0).err(), Some(String::from("Maximum 4 snakes")));
}

#[test]
fn init_rejects_too_few_snakes() {
    assert_eq!(Game::init(1, 0).err(), Some(String::from("At least 2 snakes is needed")));
    assert_eq!(Game::init(0, 0).err(), Some(String::from("At least 2 snakes is needed")));
}

#[test]
fn init_rejects_bots_only() {
    assert_eq!(Game::init(2, 2).err(), Some(String::from("At least 1 human player is needed")));
    assert_eq!(Game::init(3, 5).err(), Some(String::from("At least 1 human player is needed")));
}

#[test]
fn init_builds_the_arena() {
    let game = Game::init(4, 2).unwrap();
    assert_eq!(game.nb_snakes, 4);
    assert_eq!(game.bots, vec![3, 4]);
    assert!(matches!(game.bots_difficulty, BotMovement::ToTheFood));
    assert_eq!(game.scores, vec![PlayerStatus::Player(0); 4]);
    assert_eq!(game.snakes.len(), 4);
    assert_eq!(head(&game, 1), Point::new(15, 7));
    assert_eq!(head(&game, 4), Point::new(45, 14));
    assert!(game.food.x >= 2 && game.food.x < WIDTH);
    assert!(game.food.y >= 2 && game.food.y < HEIGHT);
    assert_eq!(game.speed, 100);
    assert!(game.has_room_to_grow());
}

#[test]
fn no_collisions_at_start() {
    let mut game = Game::init(4, 0).unwrap();
    assert_eq!(game.check_collisions(), Vec::<u32>::new());
}

#[test]
fn collisions_with_border_body_and_head() {
    let mut game = Game::init(4, 0).unwrap();
    // Snake 1 on the border margin.
    game.snakes[0].as_mut().unwrap().head = Point::new(1, 7);
    // Snake 3's head inside snake 2's body.
    game.snakes[2].as_mut().unwrap().head = Point::new(46, 7);
    assert_eq!(game.check_collisions(), vec![1, 3]);

    let mut game = Game::init(4, 0).unwrap();
    // Heads of snakes 2 and 4 meet.
    game.snakes[3].as_mut().unwrap().head = Point::new(45, 7);
    assert_eq!(game.check_collisions(), vec![2, 4]);
}

#[test]
fn eating_grows_and_scores() {
    let mut game = Game::init(2, 0).unwrap();
    game.food = Point::new(16, 10);
    let out = game.turn(vec![None, None]);
    assert_eq!(playing(&out), Vec::<u32>::new());
    assert_eq!(game.scores[0], PlayerStatus::Player(10));
    assert_eq!(game.scores[1], PlayerStatus::Player(0));
    assert_eq!(body_len(&game, 1), 2);
    assert_eq!(body_len(&game, 2), 1);
    assert!(game.food.x >= 2 && game.food.x < WIDTH);
    assert!(game.food.y >= 2 && game.food.y < HEIGHT);
}

#[test]
fn food_stays_when_nothing_is_eaten() {
    let mut game = Game::init(2, 0).unwrap();
    game.food = Point::new(2, 20);
    game.turn(vec![None, None]);
    assert_eq!(game.food, Point::new(2, 20));
}

#[test]
fn score_follows_body_length() {
    let mut game = Game::init(2, 0).unwrap();
    game.food = Point::new(16, 10);
    game.turn(vec![]);
    game.food = Point::new(17, 10);
    game.turn(vec![]);
    for id in 1..=2 {
        let len = body_len(&game, id) as i32;
        assert_eq!(game.scores[id - 1], PlayerStatus::Player(10 * (len - 1)));
    }
    assert_eq!(game.scores[0], PlayerStatus::Player(20));
}

#[test]
fn inputs_turn_and_reversals_are_ignored() {
    let mut game = Game::init(2, 0).unwrap();
    game.food = Point::new(2, 20);
    game.turn(vec![Some(Input::Left), Some(Input::Down)]);
    assert_eq!(head(&game, 1), Point::new(16, 10));
    assert_eq!(head(&game, 2), Point::new(45, 11));
    assert_eq!(game.snakes[1].as_ref().unwrap().direction, Direction::Down);
}

#[test]
fn facing_snakes_meet_head_on() {
    // Snake 1 at (15, 10) going right and snake 2 at (45, 10) going left meet
    // at x = 30 on the fifteenth tick: both lose, and the match is a draw.
    let mut game = Game::init(2, 0).unwrap();
    game.food = Point::new(2, 20);
    for _ in 0..14 {
        let out = game.turn(vec![None, None]);
        assert_eq!(playing(&out), Vec::<u32>::new());
    }
    assert_eq!(head(&game, 1), Point::new(29, 10));
    assert_eq!(head(&game, 2), Point::new(31, 10));
    let out = game.turn(vec![None, None]);
    assert!(matches!(out, TurnOutcome::End(None)));
    assert_eq!(game.scores, vec![PlayerStatus::Loser, PlayerStatus::Loser]);
    assert!(game.snakes.iter().all(|s| s.is_none()));
}

#[test]
fn runner_hits_the_right_border() {
    // Snake 2 leaves the row and circles in a square; snake 1 goes on right
    // from x = 15: after 44 ticks its head is at x = 59, and the 45th tick
    // takes it to x = 60 = WIDTH, on the border.
    let mut game = Game::init(2, 0).unwrap();
    game.food = Point::new(2, 20);
    let circle = [Input::Left, Input::Up, Input::Right, Input::Down];
    for t in 1..=45u32 {
        let second = if t <= 2 { Input::Up } else { circle[((t - 3) % 4) as usize] };
        let out = game.turn(vec![None, Some(second)]);
        if t < 45 {
            assert_eq!(playing(&out), Vec::<u32>::new(), "tick {}", t);
            assert_eq!(head(&game, 1), Point::new(15 + t as u16, 10));
        } else {
            assert!(matches!(out, TurnOutcome::End(Some(2))));
        }
    }
    assert_eq!(game.scores[0], PlayerStatus::Loser);
    assert!(game.snakes[0].is_none());
    assert!(game.snakes[1].is_some());
}

#[test]
fn leaver_is_reported_and_match_goes_on() {
    let mut game = Game::init(3, 0).unwrap();
    game.food = Point::new(2, 20);
    let out = game.turn(vec![None, Some(Input::Quit), None]);
    assert_eq!(playing(&out), vec![2]);
    assert_eq!(game.scores[1], PlayerStatus::Leaver);
    assert!(game.snakes[1].is_none());
    let out = game.turn(vec![None, None, None]);
    assert_eq!(playing(&out), Vec::<u32>::new());
    assert_eq!(game.scores[1], PlayerStatus::Leaver);
    assert_eq!(head(&game, 1), Point::new(17, 7));
    assert_eq!(head(&game, 3), Point::new(17, 14));
}

#[test]
fn last_snake_standing_wins() {
    let mut game = Game::init(2, 0).unwrap();
    game.food = Point::new(2, 20);
    let out = game.turn(vec![Some(Input::Quit), None]);
    assert!(matches!(out, TurnOutcome::End(Some(2))));
    assert_eq!(game.scores[0], PlayerStatus::Leaver);
}

#[test]
fn everyone_leaving_is_a_draw() {
    let mut game = Game::init(2, 0).unwrap();
    let out = game.turn(vec![Some(Input::Quit), Some(Input::Quit)]);
    assert!(matches!(out, TurnOutcome::End(None)));
    assert_eq!(game.scores, vec![PlayerStatus::Leaver, PlayerStatus::Leaver]);
}

#[test]
fn loser_status_wins_over_leaver() {
    let mut game = Game::init(3, 0).unwrap();
    game.food = Point::new(2, 20);
    // Snake 1 is one cell from the left border margin, turned left, and quits.
    game.snakes[0].as_mut().unwrap().head = Point::new(2, 7);
    game.snakes[0].as_mut().unwrap().body = vec![Point::new(3, 7)];
    game.snakes[0].as_mut().unwrap().direction = Direction::Left;
    let out = game.turn(vec![Some(Input::Quit), None, None]);
    assert_eq!(playing(&out), vec![1]);
    assert_eq!(game.scores[0], PlayerStatus::Loser);
}

#[test]
fn bots_chase_the_food() {
    let mut game = Game::init(2, 1).unwrap();
    // Food straight above the bot (snake 2 at (45, 10) heading left).
    game.food = Point::new(45, 3);
    game.turn(vec![None, None]);
    assert_eq!(head(&game, 2), Point::new(45, 9));
    assert_eq!(game.snakes[1].as_ref().unwrap().direction, Direction::Up);
}

#[test]
fn random_bots_move_one_cell() {
    let mut game = Game::init(2, 1).unwrap();
    game.bots_difficulty = BotMovement::Random;
    game.food = Point::new(2, 20);
    game.turn(vec![None, None]);
    if let Some(bot) = game.snakes[1].as_ref() {
        let h = bot.head;
        let dist = (h.x as i32 - 45).abs() + (h.y as i32 - 10).abs();
        assert_eq!(dist, 1);
        assert_eq!(bot.body, vec![Point::new(45, 10)]);
    }
}

#[test]
fn closed_connection_turns_its_snake_into_a_leaver() {
    // Three humans on three connections; the one owning id 2 closes, which
    // the server reads as `Leave`.
    let mut game = Game::init(3, 0).unwrap();
    game.food = Point::new(2, 20);
    let clients = vec![
        (vec![1], ClientMsg::SnakeDirection(vec![None])),
        (vec![2], ClientMsg::Leave(1)),
        (vec![3], ClientMsg::SnakeDirection(vec![])),
    ];
    let out = game.turn(slot_inputs(3, &clients));
    assert_eq!(playing(&out), vec![2]);
    assert_eq!(game.scores[1], PlayerStatus::Leaver);
    for _ in 0..5 {
        let out = game.turn(slot_inputs(3, &clients));
        assert_eq!(playing(&out), Vec::<u32>::new());
        assert_eq!(game.scores[1], PlayerStatus::Leaver);
    }
    assert_eq!(head(&game, 1), Point::new(21, 7));
    assert_eq!(head(&game, 3), Point::new(21, 14));
}

#[test]
fn spawned_food_avoids_heads() {
    for _ in 0..300 {
        let game = Game::init(4, 1).unwrap();
        for slot in game.snakes.iter() {
            assert_ne!(slot.as_ref().unwrap().head, game.food);
        }
    }
}

#[test]
fn collisions_are_reported_by_snake_id() {
    let mut game = Game::init(2, 0).unwrap();
    game.snakes[1].as_mut().unwrap().id = 7;
    game.snakes[1].as_mut().unwrap().head = Point::new(45, HEIGHT);
    assert_eq!(game.check_collisions(), vec![7]);
}
