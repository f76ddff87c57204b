use snake_arena::client::{client_width, keys_to_msg, max_players_on_terminal};
use snake_arena::game::Input;
use snake_arena::geometry::Direction;
use snake_arena::protocol::{ids_are_disjoint, slot_inputs, ClientMsg, Registration, ServerMsg};

fn ack(msg: Option<ServerMsg>) -> Vec<u32> {
    match msg {
        Some(ServerMsg::InitAck(ids)) => ids,
        _ => panic!("expected an acknowledgement"),
    }
}

fn error(msg: Option<ServerMsg>) -> String {
    match msg {
        Some(ServerMsg::Error(e)) => e,
        _ => panic!("expected an error"),
    }
}

#[test]
fn registration_over_quota() {
    // Four snakes, no bots: four human places.
    let mut reg = Registration::new(4 - 0);
    assert_eq!(ack(reg.register(&ClientMsg::Init(2))), vec![1, 2]);
    assert!(!reg.is_complete());
    // Only two places are left.
    assert_eq!(error(reg.register(&ClientMsg::Init(3))), "Too many players for this game");
    assert_eq!(reg.players_pending, 2);
    assert_eq!(ack(reg.register(&ClientMsg::Init(2))), vec![3, 4]);
    assert!(reg.is_complete());
    // The quota is full.
    assert_eq!(error(reg.register(&ClientMsg::Init(2))), "Too many players for this game");
    assert_eq!(reg.players_pending, 4);
}

#[test]
fn registration_needs_init_first() {
    let mut reg = Registration::new(2);
    assert!(reg.register(&ClientMsg::Leave(1)).is_none());
    assert!(reg.register(&ClientMsg::SnakeDirection(vec![None])).is_none());
    assert_eq!(reg.players_pending, 0);
    assert_eq!(ack(reg.register(&ClientMsg::Init(1))), vec![1]);
    assert_eq!(ack(reg.register(&ClientMsg::Init(0))), Vec::<u32>::new());
    assert_eq!(ack(reg.register(&ClientMsg::Init(1))), vec![2]);
    assert!(reg.is_complete());
}

#[test]
fn terminal_layout() {
    assert_eq!(client_width(), 120);
    assert_eq!(max_players_on_terminal(), 4);
}

#[test]
fn connection_messages_become_slot_inputs() {
    let clients = vec![
        (vec![1, 2], ClientMsg::SnakeDirection(vec![Some(Direction::Up), None])),
        (vec![3], ClientMsg::Leave(1)),
    ];
    assert_eq!(slot_inputs(4, &clients), vec![Some(Input::Up), None, Some(Input::Quit), None]);
    let clients = vec![(vec![2, 1], ClientMsg::SnakeDirection(vec![Some(Direction::Left)]))];
    assert_eq!(slot_inputs(2, &clients), vec![None, Some(Input::Left)]);
    let clients = vec![(vec![1, 9], ClientMsg::Leave(2)), (vec![2], ClientMsg::Init(1))];
    assert_eq!(slot_inputs(2, &clients), vec![Some(Input::Quit), None]);
}

#[test]
fn disjoint_owners() {
    let ok = vec![(vec![1, 2], ClientMsg::Leave(2)), (vec![3], ClientMsg::Leave(1))];
    assert!(ids_are_disjoint(&ok));
    let shared = vec![(vec![1, 2], ClientMsg::Leave(2)), (vec![2], ClientMsg::Leave(1))];
    assert!(!ids_are_disjoint(&shared));
    let twice = vec![(vec![1, 1], ClientMsg::Leave(2))];
    assert!(!ids_are_disjoint(&twice));
}

#[test]
fn keys_give_last_direction_per_player() {
    match keys_to_msg(&vec![b'z', b'k', b'q', 0, 0], 2) {
        ClientMsg::SnakeDirection(v) => {
            assert_eq!(v, vec![Some(Direction::Left), Some(Direction::Down)])
        }
        _ => panic!("expected directions"),
    }
    match keys_to_msg(&vec![b'l', b'x'], 2) {
        ClientMsg::SnakeDirection(v) => assert_eq!(v, vec![None, Some(Direction::Right)]),
        _ => panic!("expected directions"),
    }
    match keys_to_msg(&vec![b'd'], 1) {
        ClientMsg::SnakeDirection(v) => assert_eq!(v, vec![Some(Direction::Right)]),
        _ => panic!("expected directions"),
    }
}

#[test]
fn escape_leaves() {
    assert!(matches!(keys_to_msg(&vec![b'z', 27, b's'], 2), ClientMsg::Leave(2)));
}
