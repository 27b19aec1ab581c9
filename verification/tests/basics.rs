//! The small parts: distance, mailboxes, player records, identifiers,
//! messages.

use doibak::ids::{fresh_id, lowest_free, MAX_DRAWS};
use doibak::player::{IngameProp, Mailbox, Player};
use doibak::protocol::{Action, Data, DataType, Error, Event, GameAction, Response};
use doibak::utils::Distance;
use doibak::game::Game;
use std::collections::HashMap;

#[test]
fn distance_is_the_manhattan_distance() {
    assert_eq!((1u8, 1u8).distance(&(1, 1)), 0);
    assert_eq!((1u8, 1u8).distance(&(1, 2)), 1);
    assert_eq!((1u8, 2u8).distance(&(1, 1)), 1);
    assert_eq!((1u8, 1u8).distance(&(2, 2)), 2);
    assert_eq!((4u8, 4u8).distance(&(1, 1)), 6);
    assert_eq!((3u8, 0u8).distance(&(0, 4)), 7);
}

#[test]
fn distance_does_not_overflow_at_the_corners() {
    assert_eq!((0u8, 0u8).distance(&(255, 255)), 510);
    assert_eq!((255u8, 0u8).distance(&(0, 255)), 510);
    assert_eq!((255u8, 255u8).distance(&(255, 255)), 0);
}

#[test]
fn distance_is_symmetric() {
    for a in [(0u8, 0u8), (3, 7), (200, 1), (255, 255)] {
        for b in [(0u8, 0u8), (9, 2), (1, 200), (255, 0)] {
            assert_eq!(a.distance(&b), b.distance(&a));
        }
    }
}

#[test]
fn mailbox_keeps_messages_in_order() {
    let mut mailbox = Mailbox::new();
    assert!(mailbox.is_open());
    assert!(mailbox.send(Response::GameStarted));
    assert!(mailbox.send(Response::RoomCreated(4)));
    assert!(mailbox.send(Response::Error(Error::Other)));
    assert_eq!(
        mailbox.drain(),
        vec![Response::GameStarted, Response::RoomCreated(4), Response::Error(Error::Other)]
    );
    assert!(mailbox.drain().is_empty());
    assert!(mailbox.is_open());
}

#[test]
fn closed_mailbox_refuses_and_keeps_what_it_has() {
    let mut mailbox = Mailbox::new();
    assert!(mailbox.send(Response::GameStarted));
    mailbox.close();
    assert!(!mailbox.is_open());
    assert!(!mailbox.send(Response::RoomJoined(1)));
    assert_eq!(mailbox.drain(), vec![Response::GameStarted]);
    assert!(!mailbox.send(Response::RoomJoined(1)));
    assert!(mailbox.drain().is_empty());
}

#[test]
fn new_player_is_in_no_room_and_not_ready() {
    let player = Player::new(9, "nine".to_string());
    assert_eq!(player.id, 9);
    assert_eq!(player.name, "nine");
    assert_eq!(player.room, None);
    assert_eq!(player.ingame, None);
    assert!(!player.ready);
    assert!(player.mailbox.is_open());
    assert!(player.mailbox.queue.is_empty());
}

#[test]
fn player_send_reports_delivery() {
    let mut player = Player::new(9, "nine".to_string());
    assert!(player.send(Response::GameStarted));
    player.mailbox.close();
    assert!(!player.send(Response::GameStarted));
    assert_eq!(player.mailbox.queue, vec![Response::GameStarted]);
}

#[test]
fn ingame_and_ingame_mut_reach_the_same_state() {
    let mut player = Player::new(9, "nine".to_string());
    player.ingame = Some(IngameProp { position: (1, 2), stage: 0 });
    assert_eq!(player.ingame(), &IngameProp { position: (1, 2), stage: 0 });
    player.ingame_mut().position = (3, 4);
    player.ingame_mut().stage = 2;
    assert_eq!(player.ingame(), &IngameProp { position: (3, 4), stage: 2 });
    assert_eq!(player.id, 9);
    assert_eq!(player.name, "nine");
}

#[test]
fn player_export_leaves_out_the_mailbox_only() {
    let mut player = Player::new(9, "nine".to_string());
    player.room = Some(5);
    player.ready = true;
    player.ingame = Some(IngameProp { position: (1, 2), stage: 1 });
    player.send(Response::GameStarted);
    let export = player.export();
    assert_eq!(export.id, 9);
    assert_eq!(export.name, "nine");
    assert_eq!(export.room, Some(5));
    assert_eq!(export.ingame, Some(IngameProp { position: (1, 2), stage: 1 }));
    assert!(export.ready);
}

#[test]
fn lowest_free_skips_what_is_taken() {
    let mut taken: HashMap<u64, ()> = HashMap::new();
    assert_eq!(lowest_free(&taken), 0);
    taken.insert(0, ());
    taken.insert(1, ());
    taken.insert(3, ());
    assert_eq!(lowest_free(&taken), 2);
    taken.insert(2, ());
    assert_eq!(lowest_free(&taken), 4);
}

#[test]
fn registered_ids_are_distinct() {
    assert_eq!(MAX_DRAWS, 64);
    let mut game = Game::new(1);
    let mut seen = std::collections::HashSet::new();
    for i in 0..500 {
        let id = game.insert_player(format!("p{}", i));
        assert!(seen.insert(id));
        assert_eq!(game.players.get(&id).unwrap().id, id);
    }
    assert_eq!(game.players.len(), 500);
}

#[test]
fn fresh_id_is_never_taken() {
    let mut game = Game::new(2);
    let mut taken: HashMap<u64, u8> = HashMap::new();
    for _ in 0..200 {
        let id = fresh_id(&taken, &mut game.id_rng);
        assert!(!taken.contains_key(&id));
        taken.insert(id, 0);
    }
}

#[test]
fn draws_differ() {
    // A generator that handed back one number would fall back on the lowest
    // free ids, which are small.
    let mut game = Game::new(3);
    let taken: HashMap<u64, u8> = HashMap::new();
    let a = fresh_id(&taken, &mut game.id_rng);
    let b = fresh_id(&taken, &mut game.id_rng);
    let c = fresh_id(&taken, &mut game.id_rng);
    assert!(a != b || b != c);
}

#[test]
fn same_seed_same_ids() {
    let mut one = Game::new(77);
    let mut two = Game::new(77);
    for i in 0..20 {
        assert_eq!(one.insert_player(format!("p{}", i)), two.insert_player(format!("q{}", i)));
    }
}

#[test]
fn clones_of_messages_are_equal() {
    let mut names = HashMap::new();
    names.insert(1u64, "a".to_string());
    names.insert(2u64, "b".to_string());
    let all = vec![
        Response::Error(Error::RoomNotFound),
        Response::RoomCreated(1),
        Response::RoomJoined(2),
        Response::GameStarted,
        Response::Event(Event::TurnStart),
        Response::Event(Event::Attack(1, 2)),
        Response::Event(Event::Run(3, 4)),
        Response::Event(Event::Disconnected("a".to_string())),
        Response::Event(Event::Die("b".to_string())),
        Response::Event(Event::GameEnd("c".to_string())),
        Response::Sync(Data::Player { name: "d".to_string(), id: 5, position: (6, 7) }),
        Response::Sync(Data::PlayersOrder(vec![3, 1, 2])),
        Response::Sync(Data::PlayersName(names.clone())),
        Response::Sync(Data::RoomList(names)),
    ];
    for res in &all {
        assert_eq!(&res.clone(), res);
    }
    let actions = vec![
        Action::CreateRoom { name: "r".to_string() },
        Action::JoinRoom { id: 3 },
        Action::Ready(1, 2),
        Action::Game(GameAction::End),
        Action::RequestData(DataType::RoomList),
    ];
    for action in &actions {
        assert_eq!(&action.clone(), action);
    }
}
