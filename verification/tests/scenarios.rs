//! Whole commands against the engine: errors, evictions, disconnects, room
//! lifecycle, projections.

use doibak::game::Game;
use doibak::player::IngameProp;
use doibak::protocol::{Action, Data, DataType, Error, Event, GameAction, Response};
use doibak::utils::In;
use std::collections::HashMap;

fn create(game: &mut Game, player: u64, name: &str) -> u64 {
    game.perform_action(player, Action::CreateRoom { name: name.to_string() });
    game.players.get(&player).unwrap().room.unwrap()
}

fn join(game: &mut Game, player: u64, room: u64) {
    game.perform_action(player, Action::JoinRoom { id: room });
}

/// A started match of `count` players, all at (1, 1), mailboxes emptied.
/// Returns the room and the players in turn order.
fn started(game: &mut Game, count: usize) -> (u64, Vec<u64>) {
    let mut ids = Vec::new();
    for i in 0..count {
        ids.push(game.insert_player(format!("pl_{}", i)));
    }
    let room = create(game, ids[0], "room");
    for id in &ids[1..] {
        join(game, *id, room);
    }
    for id in &ids {
        game.perform_action(*id, Action::Ready(1, 1));
    }
    for id in &ids {
        game.take_outbox(*id);
    }
    let order = game.rooms.get(&room).unwrap().order_list();
    assert_eq!(order.len(), count);
    (room, order)
}

fn name(game: &Game, player: u64) -> String {
    game.players.get(&player).unwrap().name.clone()
}

fn event(e: Event) -> Response {
    Response::Event(e)
}

fn error(e: Error) -> Response {
    Response::Error(e)
}

#[test]
fn action_of_an_unknown_player_is_dropped() {
    let mut game = Game::new(1);
    let a = game.insert_player("a".to_string());
    let before = game.export();
    game.perform_action(a.wrapping_add(1), Action::CreateRoom { name: "x".to_string() });
    game.perform_action(a.wrapping_add(1), Action::Ready(1, 1));
    assert_eq!(game.export(), before);
    assert!(game.take_outbox(a).is_empty());
    assert!(game.take_outbox(a.wrapping_add(1)).is_empty());
}

#[test]
fn create_room_sends_id_names_and_members() {
    let mut game = Game::new(1);
    let a = game.insert_player("alice".to_string());
    let room = create(&mut game, a, "den");
    let mut names = HashMap::new();
    names.insert(a, "alice".to_string());
    assert_eq!(
        game.take_outbox(a),
        vec![
            Response::RoomCreated(room),
            Response::Sync(Data::PlayersName(names)),
            Response::Sync(Data::PlayersOrder(vec![a])),
        ]
    );
    let made = game.rooms.get(&room).unwrap();
    assert_eq!(made.name, "den");
    assert!(made.order.is_empty());
    assert!(!made.contested);
}

#[test]
fn join_room_sends_id_names_and_members() {
    let mut game = Game::new(1);
    let a = game.insert_player("alice".to_string());
    let b = game.insert_player("bob".to_string());
    let room = create(&mut game, a, "den");
    game.take_outbox(a);
    join(&mut game, b, room);
    let mut out = game.take_outbox(b);
    assert_eq!(out.len(), 3);
    let order = match out.pop().unwrap() {
        Response::Sync(Data::PlayersOrder(mut order)) => {
            order.sort();
            order
        }
        other => panic!("unexpected {:?}", other),
    };
    let mut both = vec![a, b];
    both.sort();
    assert_eq!(order, both);
    let mut names = HashMap::new();
    names.insert(a, "alice".to_string());
    names.insert(b, "bob".to_string());
    assert_eq!(out, vec![Response::RoomJoined(room), Response::Sync(Data::PlayersName(names))]);
    assert!(game.take_outbox(a).is_empty());
    assert!(game.rooms.get(&room).unwrap().contested);
}

#[test]
fn join_of_an_unknown_room_is_an_error() {
    let mut game = Game::new(1);
    let a = game.insert_player("alice".to_string());
    let before = game.export();
    join(&mut game, a, 12345);
    assert_eq!(game.take_outbox(a), vec![error(Error::RoomNotFound)]);
    assert_eq!(game.export(), before);
}

#[test]
fn ready_outside_a_room_is_an_error() {
    let mut game = Game::new(1);
    let a = game.insert_player("alice".to_string());
    let before = game.export();
    game.perform_action(a, Action::Ready(1, 1));
    assert_eq!(game.take_outbox(a), vec![error(Error::NotJoinedRoom)]);
    assert_eq!(game.export(), before);
}

#[test]
fn game_action_outside_a_room_is_an_error() {
    let mut game = Game::new(1);
    let a = game.insert_player("alice".to_string());
    game.perform_action(a, Action::Game(GameAction::End));
    assert_eq!(game.take_outbox(a), vec![error(Error::NotJoinedRoom)]);
}

#[test]
fn game_action_in_the_lobby_is_an_error() {
    let mut game = Game::new(1);
    let a = game.insert_player("alice".to_string());
    create(&mut game, a, "den");
    game.perform_action(a, Action::Ready(1, 1));
    game.take_outbox(a);
    let before = game.export();
    game.perform_action(a, Action::Game(GameAction::Move(1, 2)));
    assert_eq!(game.take_outbox(a), vec![error(Error::NotInGame)]);
    assert_eq!(game.export(), before);
}

#[test]
fn a_lone_ready_player_starts_nothing() {
    let mut game = Game::new(1);
    let a = game.insert_player("alice".to_string());
    let room = create(&mut game, a, "den");
    game.take_outbox(a);
    game.perform_action(a, Action::Ready(2, 3));
    assert!(game.take_outbox(a).is_empty());
    assert!(game.rooms.get(&room).unwrap().order.is_empty());
    assert_eq!(
        game.players.get(&a).unwrap().ingame,
        Some(IngameProp { position: (2, 3), stage: 0 })
    );
}

#[test]
fn start_sends_signal_sync_and_turn() {
    let mut game = Game::new(4);
    let a = game.insert_player("alice".to_string());
    let b = game.insert_player("bob".to_string());
    let room = create(&mut game, a, "den");
    join(&mut game, b, room);
    game.take_outbox(a);
    game.take_outbox(b);
    game.perform_action(a, Action::Ready(1, 2));
    game.perform_action(b, Action::Ready(1, 1));
    let order = game.rooms.get(&room).unwrap().order_list();
    assert_eq!(order.len(), 2);
    let mut names = HashMap::new();
    names.insert(a, "alice".to_string());
    names.insert(b, "bob".to_string());
    for (id, who, at) in [(a, "alice", (1, 2)), (b, "bob", (1, 1))] {
        let mut expect = vec![
            Response::GameStarted,
            Response::Sync(Data::Player { name: who.to_string(), id, position: at }),
            Response::Sync(Data::PlayersOrder(order.clone())),
            Response::Sync(Data::PlayersName(names.clone())),
        ];
        if order[0] == id {
            expect.push(event(Event::TurnStart));
        }
        assert_eq!(game.take_outbox(id), expect);
    }
}

#[test]
fn ready_during_a_match_starts_no_second_match() {
    let mut game = Game::new(1);
    let (room, order) = started(&mut game, 3);
    game.perform_action(order[1], Action::Ready(5, 5));
    assert_eq!(game.rooms.get(&room).unwrap().order_list(), order);
    for id in &order {
        assert!(game.take_outbox(*id).is_empty());
    }
}

#[test]
fn a_finished_room_does_not_start_again() {
    let mut game = Game::new(1);
    let (room, order) = started(&mut game, 2);
    game.perform_action(order[0], Action::Game(GameAction::Attack(1, 1)));
    assert_eq!(game.rooms.get(&room).unwrap().order_list(), vec![order[0]]);
    for id in &order {
        game.take_outbox(*id);
    }
    game.perform_action(order[1], Action::Ready(1, 1));
    game.perform_action(order[0], Action::Ready(1, 1));
    assert_eq!(game.rooms.get(&room).unwrap().order_list(), vec![order[0]]);
    for id in &order {
        assert!(game.take_outbox(*id).is_empty());
    }
}

#[test]
fn not_your_turn_changes_nothing() {
    let mut game = Game::new(1);
    let (_room, order) = started(&mut game, 2);
    let before = game.export();
    game.perform_action(order[1], Action::Game(GameAction::Attack(1, 1)));
    assert_eq!(game.take_outbox(order[1]), vec![error(Error::NotYourTurn)]);
    assert!(game.take_outbox(order[0]).is_empty());
    assert_eq!(game.export(), before);
}

#[test]
fn move_of_two_steps_is_a_parameter_error() {
    let mut game = Game::new(1);
    let (_room, order) = started(&mut game, 2);
    let before = game.export();
    for (x, y) in [(1, 3), (3, 1), (2, 2), (0, 0)] {
        game.perform_action(order[0], Action::Game(GameAction::Move(x, y)));
        assert_eq!(game.take_outbox(order[0]), vec![error(Error::IllegalParameter)]);
    }
    assert!(game.take_outbox(order[1]).is_empty());
    assert_eq!(game.export(), before);
}

#[test]
fn move_of_one_step_or_none_is_silent() {
    let mut game = Game::new(1);
    let (_room, order) = started(&mut game, 2);
    game.perform_action(order[0], Action::Game(GameAction::Move(1, 1)));
    assert_eq!(
        game.players.get(&order[0]).unwrap().ingame,
        Some(IngameProp { position: (1, 1), stage: 1 })
    );
    assert!(game.take_outbox(order[0]).is_empty());
    assert!(game.take_outbox(order[1]).is_empty());
}

#[test]
fn run_goes_exactly_two_steps() {
    let mut game = Game::new(1);
    let (_room, order) = started(&mut game, 2);
    for (x, y) in [(1, 2), (1, 1), (2, 3), (4, 1)] {
        game.perform_action(order[0], Action::Game(GameAction::Run(x, y)));
        assert_eq!(game.take_outbox(order[0]), vec![error(Error::IllegalParameter)]);
    }
    game.perform_action(order[0], Action::Game(GameAction::Run(3, 1)));
    assert_eq!(game.take_outbox(order[0]), vec![event(Event::Run(1, 1))]);
    assert_eq!(game.take_outbox(order[1]), vec![event(Event::Run(1, 1))]);
    assert_eq!(
        game.players.get(&order[0]).unwrap().ingame,
        Some(IngameProp { position: (3, 1), stage: 1 })
    );
    game.perform_action(order[0], Action::Game(GameAction::Run(3, 3)));
    assert_eq!(game.take_outbox(order[0]), vec![error(Error::ActionOrderIncorrect)]);
}

#[test]
fn attack_out_of_reach_is_a_parameter_error() {
    let mut game = Game::new(1);
    let (room, order) = started(&mut game, 2);
    game.perform_action(order[0], Action::Game(GameAction::Attack(2, 2)));
    assert_eq!(game.take_outbox(order[0]), vec![error(Error::IllegalParameter)]);
    assert_eq!(game.players.get(&order[0]).unwrap().ingame.unwrap().stage, 0);
    assert_eq!(game.rooms.get(&room).unwrap().order_list(), order);
}

#[test]
fn attack_is_allowed_on_a_fresh_turn_and_after_a_move() {
    let mut game = Game::new(1);
    let (_room, order) = started(&mut game, 2);
    game.perform_action(order[0], Action::Game(GameAction::Attack(1, 2)));
    assert_eq!(game.take_outbox(order[0]), vec![event(Event::Attack(1, 2))]);
    assert_eq!(game.players.get(&order[0]).unwrap().ingame.unwrap().stage, 2);
    game.perform_action(order[0], Action::Game(GameAction::End));
    game.take_outbox(order[0]);
    game.take_outbox(order[1]);
    game.perform_action(order[1], Action::Game(GameAction::Move(2, 1)));
    game.perform_action(order[1], Action::Game(GameAction::Attack(3, 1)));
    assert_eq!(game.take_outbox(order[1]), vec![event(Event::Attack(3, 1))]);
}

#[test]
fn after_an_attack_the_turn_allows_only_its_end() {
    let mut game = Game::new(1);
    let (_room, order) = started(&mut game, 2);
    game.perform_action(order[0], Action::Game(GameAction::Attack(1, 2)));
    game.take_outbox(order[0]);
    game.take_outbox(order[1]);
    let before = game.export();
    for action in [GameAction::Move(1, 2), GameAction::Run(1, 3), GameAction::Attack(1, 2)] {
        game.perform_action(order[0], Action::Game(action));
        assert_eq!(game.take_outbox(order[0]), vec![error(Error::ActionOrderIncorrect)]);
    }
    // an ordering error comes before a parameter error
    game.perform_action(order[0], Action::Game(GameAction::Move(9, 9)));
    assert_eq!(game.take_outbox(order[0]), vec![error(Error::ActionOrderIncorrect)]);
    assert!(game.take_outbox(order[1]).is_empty());
    assert_eq!(game.export(), before);
}

#[test]
fn end_clears_the_stage_rotates_and_announces() {
    let mut game = Game::new(1);
    let (room, order) = started(&mut game, 3);
    game.perform_action(order[0], Action::Game(GameAction::Move(1, 2)));
    game.perform_action(order[0], Action::Game(GameAction::End));
    let turned = vec![order[1], order[2], order[0]];
    assert_eq!(game.rooms.get(&room).unwrap().order_list(), turned);
    assert_eq!(
        game.players.get(&order[0]).unwrap().ingame,
        Some(IngameProp { position: (1, 2), stage: 0 })
    );
    let sync = Response::Sync(Data::PlayersOrder(turned));
    assert_eq!(game.take_outbox(order[0]), vec![sync.clone()]);
    assert_eq!(game.take_outbox(order[1]), vec![sync.clone(), event(Event::TurnStart)]);
    assert_eq!(game.take_outbox(order[2]), vec![sync]);
}

#[test]
fn kill_all_others_tells_everyone() {
    let mut game = Game::new(1);
    let (room, order) = started(&mut game, 4);
    let attacker = order[0];
    game.perform_action(attacker, Action::Game(GameAction::Move(1, 2)));
    game.perform_action(attacker, Action::Game(GameAction::Attack(1, 1)));
    let expect = vec![
        event(Event::Attack(1, 1)),
        event(Event::Die(name(&game, order[1]))),
        event(Event::Die(name(&game, order[2]))),
        event(Event::Die(name(&game, order[3]))),
        event(Event::GameEnd(name(&game, attacker))),
    ];
    for id in &order {
        assert_eq!(game.take_outbox(*id), expect);
    }
    let room = game.rooms.get(&room).unwrap();
    assert_eq!(room.order_list(), vec![attacker]);
    assert_eq!(room.winner(), Some(attacker));
    assert_eq!(room.players.len(), 4);
}

#[test]
fn kill_some_keeps_the_match_running() {
    let mut game = Game::new(1);
    let (room, order) = started(&mut game, 4);
    game.perform_action(order[0], Action::Game(GameAction::Move(1, 2)));
    game.perform_action(order[0], Action::Game(GameAction::End));
    game.perform_action(order[1], Action::Game(GameAction::Move(2, 1)));
    game.perform_action(order[1], Action::Game(GameAction::Attack(1, 1)));
    // order[2] and order[3] stood at (1, 1)
    let room = game.rooms.get(&room).unwrap();
    assert_eq!(room.order_list(), vec![order[1], order[0]]);
    assert!(room.is_gamming());
    assert_eq!(room.winner(), None);
    let out = game.take_outbox(order[3]);
    assert_eq!(
        out[out.len() - 3..].to_vec(),
        vec![
            event(Event::Attack(1, 1)),
            event(Event::Die(name(&game, order[2]))),
            event(Event::Die(name(&game, order[3]))),
        ]
    );
}

#[test]
fn attacker_who_dies_with_a_survivor_loses_the_turn() {
    let mut game = Game::new(1);
    let (room, order) = started(&mut game, 3);
    game.perform_action(order[0], Action::Game(GameAction::End));
    game.perform_action(order[1], Action::Game(GameAction::Move(1, 2)));
    game.perform_action(order[1], Action::Game(GameAction::End));
    // order[2] has the turn at (1, 1) with order[0]; order[1] is at (1, 2)
    game.perform_action(order[2], Action::Game(GameAction::Attack(1, 1)));
    let room = game.rooms.get(&room).unwrap();
    assert_eq!(room.order_list(), vec![order[1]]);
    assert_eq!(room.winner(), Some(order[1]));
    let out = game.take_outbox(order[1]);
    assert_eq!(
        out[out.len() - 4..].to_vec(),
        vec![
            event(Event::Attack(1, 1)),
            event(Event::Die(name(&game, order[0]))),
            event(Event::Die(name(&game, order[2]))),
            event(Event::GameEnd(name(&game, order[1]))),
        ]
    );
}

#[test]
fn disconnect_of_the_last_opponent_ends_the_match() {
    let mut game = Game::new(1);
    let (room, order) = started(&mut game, 2);
    let gone = name(&game, order[0]);
    assert!(game.remove_player(order[0]));
    assert!(!game.players.contains_key(&order[0]));
    assert_eq!(
        game.take_outbox(order[1]),
        vec![
            event(Event::Disconnected(gone)),
            event(Event::GameEnd(name(&game, order[1]))),
        ]
    );
    let room = game.rooms.get(&room).unwrap();
    assert_eq!(room.order_list(), vec![order[1]]);
    assert_eq!(room.players.len(), 1);
    assert_eq!(room.winner(), Some(order[1]));
    assert!(!room.is_gamming());
}

#[test]
fn disconnect_in_a_larger_match_keeps_it_running() {
    let mut game = Game::new(1);
    let (room, order) = started(&mut game, 3);
    let gone = name(&game, order[1]);
    assert!(game.remove_player(order[1]));
    assert_eq!(game.take_outbox(order[0]), vec![event(Event::Disconnected(gone.clone()))]);
    assert_eq!(game.take_outbox(order[2]), vec![event(Event::Disconnected(gone))]);
    let room = game.rooms.get(&room).unwrap();
    assert_eq!(room.order_list(), vec![order[0], order[2]]);
    assert!(room.is_gamming());
}

#[test]
fn disconnect_of_the_last_member_tears_the_room_down() {
    let mut game = Game::new(1);
    let a = game.insert_player("alice".to_string());
    let room = create(&mut game, a, "den");
    assert!(game.rooms.contains_key(&room));
    assert!(game.remove_player(a));
    assert!(game.rooms.is_empty());
    assert!(game.players.is_empty());
    assert!(!game.remove_player(a));
}

#[test]
fn disconnect_in_the_lobby_announces_no_winner() {
    let mut game = Game::new(1);
    let a = game.insert_player("alice".to_string());
    let b = game.insert_player("bob".to_string());
    let room = create(&mut game, a, "den");
    join(&mut game, b, room);
    game.take_outbox(a);
    assert!(game.remove_player(b));
    assert_eq!(game.take_outbox(a), vec![event(Event::Disconnected("bob".to_string()))]);
    assert_eq!(game.rooms.get(&room).unwrap().winner(), None);
}

#[test]
fn closed_mailbox_evicts_at_the_next_response() {
    let mut game = Game::new(1);
    let (room, order) = started(&mut game, 3);
    game.close_mailbox(order[1]);
    assert!(game.players.contains_key(&order[1]));
    // a broadcast passes the closed mailbox over
    game.perform_action(order[0], Action::Game(GameAction::Attack(1, 2)));
    assert!(game.players.contains_key(&order[1]));
    // a response to the player evicts
    let gone = name(&game, order[1]);
    game.perform_action(order[1], Action::Game(GameAction::Move(1, 2)));
    assert!(!game.players.contains_key(&order[1]));
    assert_eq!(game.rooms.get(&room).unwrap().order_list(), vec![order[0], order[2]]);
    assert_eq!(
        game.take_outbox(order[2]),
        vec![event(Event::Attack(1, 2)), event(Event::Disconnected(gone))]
    );
}

#[test]
fn turn_start_to_a_closed_mailbox_evicts_and_can_end_the_match() {
    let mut game = Game::new(1);
    let (room, order) = started(&mut game, 2);
    game.close_mailbox(order[1]);
    let gone = name(&game, order[1]);
    game.perform_action(order[0], Action::Game(GameAction::End));
    assert!(!game.players.contains_key(&order[1]));
    assert_eq!(
        game.take_outbox(order[0]),
        vec![
            Response::Sync(Data::PlayersOrder(vec![order[1], order[0]])),
            event(Event::Disconnected(gone)),
            event(Event::GameEnd(name(&game, order[0]))),
        ]
    );
    assert_eq!(game.rooms.get(&room).unwrap().winner(), Some(order[0]));
}

#[test]
fn start_evicts_members_whose_mailbox_is_closed() {
    let mut game = Game::new(1);
    let a = game.insert_player("alice".to_string());
    let b = game.insert_player("bob".to_string());
    let c = game.insert_player("carol".to_string());
    let room = create(&mut game, a, "den");
    join(&mut game, b, room);
    join(&mut game, c, room);
    game.perform_action(a, Action::Ready(1, 1));
    game.perform_action(b, Action::Ready(1, 1));
    game.close_mailbox(b);
    game.perform_action(c, Action::Ready(1, 1));
    assert!(!game.players.contains_key(&b));
    let made = game.rooms.get(&room).unwrap();
    assert_eq!(made.players.len(), 2);
    assert_eq!(made.order.len(), 2);
    assert!(made.is_gamming());
    let out = game.take_outbox(a);
    assert!(out.contains(&Response::GameStarted));
    assert!(out.contains(&event(Event::Disconnected("bob".to_string()))));
}

#[test]
fn creating_a_room_leaves_the_old_one() {
    let mut game = Game::new(1);
    let a = game.insert_player("alice".to_string());
    let b = game.insert_player("bob".to_string());
    let first = create(&mut game, a, "one");
    join(&mut game, b, first);
    game.take_outbox(b);
    let second = create(&mut game, a, "two");
    assert_ne!(first, second);
    assert_eq!(game.players.get(&a).unwrap().room, Some(second));
    assert!(!game.rooms.get(&first).unwrap().players.contains(&a));
    assert!(game.rooms.get(&second).unwrap().players.contains(&a));
    assert_eq!(game.take_outbox(b), vec![event(Event::Disconnected("alice".to_string()))]);
    // the last member moving on tears the old room down
    join(&mut game, b, second);
    assert!(!game.rooms.contains_key(&first));
    assert_eq!(game.rooms.len(), 1);
}

#[test]
fn joining_the_own_room_again_keeps_membership() {
    let mut game = Game::new(1);
    let a = game.insert_player("alice".to_string());
    let room = create(&mut game, a, "den");
    game.take_outbox(a);
    join(&mut game, a, room);
    assert!(game.rooms.contains_key(&room));
    assert_eq!(game.rooms.get(&room).unwrap().players.len(), 1);
    assert_eq!(game.take_outbox(a)[0], Response::RoomJoined(room));
}

#[test]
fn projections_need_a_room_or_in_game_state() {
    let mut game = Game::new(1);
    let a = game.insert_player("alice".to_string());
    let before = game.export();
    game.perform_action(a, Action::RequestData(DataType::Player));
    game.perform_action(a, Action::RequestData(DataType::PlayersOrder));
    game.perform_action(a, Action::RequestData(DataType::PlayersName));
    game.perform_action(a, Action::RequestData(DataType::RoomList));
    assert_eq!(
        game.take_outbox(a),
        vec![
            error(Error::NotInGame),
            error(Error::NotJoinedRoom),
            error(Error::NotJoinedRoom),
            Response::Sync(Data::RoomList(HashMap::new())),
        ]
    );
    assert_eq!(game.export(), before);
}

#[test]
fn room_list_names_every_room() {
    let mut game = Game::new(1);
    let a = game.insert_player("alice".to_string());
    let b = game.insert_player("bob".to_string());
    let c = game.insert_player("carol".to_string());
    let one = create(&mut game, a, "one");
    let two = create(&mut game, b, "two");
    game.perform_action(c, Action::RequestData(DataType::RoomList));
    let mut rooms = HashMap::new();
    rooms.insert(one, "one".to_string());
    rooms.insert(two, "two".to_string());
    assert_eq!(game.take_outbox(c), vec![Response::Sync(Data::RoomList(rooms))]);
}

#[test]
fn projections_change_no_state() {
    let mut game = Game::new(1);
    let (_room, order) = started(&mut game, 3);
    let before = game.export();
    for ty in [DataType::Player, DataType::PlayersOrder, DataType::PlayersName, DataType::RoomList]
    {
        game.perform_action(order[1], Action::RequestData(ty));
    }
    assert_eq!(game.take_outbox(order[1]).len(), 4);
    assert_eq!(game.export(), before);
}

#[test]
fn process_applies_each_kind_of_command() {
    let mut game = Game::new(1);
    let a = game.process(In::NewPlayer("alice".to_string())).unwrap();
    let b = game.process(In::NewPlayer("bob".to_string())).unwrap();
    assert_ne!(a, b);
    assert_eq!(
        game.process(In::PlayerAction {
            player: a,
            action: Action::CreateRoom { name: "den".to_string() }
        }),
        None
    );
    let room = game.players.get(&a).unwrap().room.unwrap();
    assert_eq!(game.process(In::PlayerAction { player: b, action: Action::JoinRoom { id: room } }), None);
    game.take_outbox(a);
    assert_eq!(game.process(In::Disconnected(b)), None);
    assert!(!game.players.contains_key(&b));
    assert_eq!(game.take_outbox(a), vec![event(Event::Disconnected("bob".to_string()))]);
}

#[test]
fn export_shows_players_and_rooms() {
    let mut game = Game::new(1);
    let (room, order) = started(&mut game, 2);
    let export = game.export();
    assert_eq!(export.players.len(), 2);
    assert_eq!(export.rooms.len(), 1);
    let shown = export.rooms.get(&room).unwrap();
    assert_eq!(shown.order.iter().copied().collect::<Vec<u64>>(), order);
    assert_eq!(shown.players.len(), 2);
    for id in &order {
        let p = export.players.get(id).unwrap();
        assert_eq!(p.id, *id);
        assert_eq!(p.room, Some(room));
        assert!(p.ready);
        assert_eq!(p.ingame, Some(IngameProp { position: (1, 1), stage: 0 }));
    }
    assert_eq!(export.clone(), export);
}

#[test]
fn take_outbox_of_an_unknown_player_is_empty() {
    let mut game = Game::new(1);
    assert!(game.take_outbox(3).is_empty());
    game.close_mailbox(3);
    assert!(game.players.is_empty());
}

#[test]
fn references_stay_consistent_through_a_session() {
    let mut game = Game::new(9);
    let mut ids = Vec::new();
    for i in 0..6 {
        ids.push(game.insert_player(format!("p{}", i)));
    }
    let one = create(&mut game, ids[0], "one");
    let two = create(&mut game, ids[1], "two");
    join(&mut game, ids[2], one);
    join(&mut game, ids[3], two);
    join(&mut game, ids[4], one);
    join(&mut game, ids[2], two);
    for id in &ids {
        game.perform_action(*id, Action::Ready(1, 1));
    }
    game.remove_player(ids[3]);
    game.close_mailbox(ids[4]);
    game.perform_action(ids[4], Action::RequestData(DataType::RoomList));
    let export = game.export();
    for (id, p) in &export.players {
        assert_eq!(p.id, *id);
        if let Some(r) = p.room {
            assert!(export.rooms.get(&r).unwrap().players.contains(id));
        }
    }
    for (r, room) in &export.rooms {
        assert!(!room.players.is_empty());
        for m in &room.players {
            assert_eq!(export.players.get(m).unwrap().room, Some(*r));
        }
        let mut seen = std::collections::HashSet::new();
        for m in &room.order {
            assert!(room.players.contains(m));
            assert!(seen.insert(*m));
        }
    }
}
