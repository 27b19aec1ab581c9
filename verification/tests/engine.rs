//! The engine driven command by command, as a transport would drive it.

use doibak::game::Game;
use doibak::protocol::{Action, Data, DataType, Error, Event, GameAction, Response};
use std::collections::{HashMap, HashSet, VecDeque};

/// An engine together with what each player has received so far.
struct Table {
    game: Game,
    inbox: HashMap<u64, VecDeque<Response>>,
}

impl Table {
    fn new() -> Table {
        Table { game: Game::new(20260101), inbox: HashMap::new() }
    }

    fn flush(&mut self) {
        let ids: Vec<u64> = self.inbox.keys().copied().collect();
        for id in ids {
            let out = self.game.take_outbox(id);
            self.inbox.get_mut(&id).unwrap().extend(out);
        }
    }

    fn new_player(&mut self, name: &str) -> u64 {
        let id = self.game.insert_player(name.to_string());
        self.inbox.insert(id, VecDeque::new());
        id
    }

    fn act(&mut self, player: u64, action: Action) {
        self.game.perform_action(player, action);
        self.flush();
    }

    fn receive(&mut self, player: u64) -> Response {
        self.inbox.get_mut(&player).unwrap().pop_front().expect("Not receive anything")
    }

    fn nothing(&mut self, player: u64) {
        let next = self.inbox.get_mut(&player).unwrap().pop_front();
        if let Some(res) = next {
            panic!("should receive nothing but received {:?}", res)
        }
    }

    fn skip(&mut self, player: u64, count: usize) {
        for _ in 0..count {
            self.receive(player);
        }
    }

    fn create_room(&mut self, player: u64) -> u64 {
        self.act(player, Action::CreateRoom { name: "room".to_string() });
        let room = match self.receive(player) {
            Response::RoomCreated(id) => id,
            _ => panic!("Can't get room id"),
        };
        self.skip(player, 2);
        room
    }

    fn join_room(&mut self, player: u64, room: u64) {
        self.act(player, Action::JoinRoom { id: room });
        if !matches!(self.receive(player), Response::RoomJoined(_)) {
            panic!("Can't join room")
        }
        self.skip(player, 2);
    }

    /// Takes the start signal and the three synchronisations.
    fn started(&mut self, player: u64) {
        if !matches!(self.receive(player), Response::GameStarted) {
            panic!("game not start")
        }
        self.skip(player, 3);
    }
}

fn is_turn_start(res: &Response) -> bool {
    matches!(res, Response::Event(Event::TurnStart))
}

/// Two players in a started match, the first of the pair having the turn.
fn start_game() -> (Table, (u64, u64)) {
    let mut table = Table::new();
    let pl1 = table.new_player("pl_a");
    let pl2 = table.new_player("pl_b");
    let room = table.create_room(pl1);
    table.join_room(pl2, room);
    table.act(pl1, Action::Ready(1, 1));
    table.act(pl2, Action::Ready(1, 1));
    table.started(pl1);
    table.started(pl2);
    let front = table.game.rooms.get(&room).unwrap().currect_player_id();
    let (first, second) = if front == pl1 { (pl1, pl2) } else { (pl2, pl1) };
    if !is_turn_start(&table.receive(first)) {
        panic!("No turn started")
    }
    table.nothing(second);
    (table, (first, second))
}

/// Four players in one room, all ready at (1, 1); returns the room and the
/// player who has the turn.
fn start_four() -> (Table, u64, u64, Vec<u64>) {
    let mut table = Table::new();
    let pl1 = table.new_player("pl_a");
    let pl2 = table.new_player("pl_b");
    let pl3 = table.new_player("pl_c");
    let pl4 = table.new_player("pl_d");
    let all = vec![pl1, pl2, pl3, pl4];
    let room = table.create_room(pl1);
    table.join_room(pl2, room);
    table.join_room(pl3, room);
    table.join_room(pl4, room);
    for id in &all {
        table.act(*id, Action::Ready(1, 1));
    }
    for id in &all {
        table.started(*id);
    }
    let front = table.game.rooms.get(&room).unwrap().currect_player_id();
    for id in &all {
        if *id == front {
            if !is_turn_start(&table.receive(*id)) {
                panic!("No turn started")
            }
        } else {
            table.nothing(*id);
        }
    }
    (table, room, front, all)
}

#[test]
fn test_setup() {
    let table = Table::new();
    assert!(table.game.players.is_empty());
    assert!(table.game.rooms.is_empty());
}

#[test]
fn test_add_player() {
    let mut table = Table::new();
    let id = table.new_player("yahvk");
    assert_eq!(&table.game.players.get(&id).expect("player yahvk not exists").name, "yahvk");
}

#[test]
fn test_add_three_player() {
    let mut table = Table::new();
    let mut ids = Vec::new();
    for name in ["aa", "bb", "cc"] {
        ids.push(table.new_player(name));
    }
    for (i, name) in ["aa", "bb", "cc"].iter().enumerate() {
        assert_eq!(
            &table
                .game
                .players
                .get(&ids[i])
                .unwrap_or_else(|| panic!("player {} not exists", name))
                .name,
            name
        );
    }
}

#[test]
fn test_create_room() {
    let mut table = Table::new();
    let player = table.new_player("yahvk");
    table.act(player, Action::CreateRoom { name: "room".to_string() });
    let room = match table.receive(player) {
        Response::RoomCreated(id) => id,
        _ => panic!("Can't get room id"),
    };
    assert_eq!(
        table.game.players.get(&player).expect("player yahvk not exists").room,
        Some(room)
    );
    let mut players = table.game.rooms.get(&room).expect("room not exists").players.iter();
    assert_eq!(players.next(), Some(&player));
    assert_eq!(players.next(), None);
}

#[test]
fn test_join_room() {
    let mut table = Table::new();
    let player = table.new_player("yahvk");
    let player2 = table.new_player("yahvk2");
    let room = table.create_room(player);
    table.act(player2, Action::JoinRoom { id: room });
    if !matches!(table.receive(player2), Response::RoomJoined(_)) {
        panic!("Can't join room")
    };
    assert_eq!(
        table.game.players.get(&player).expect("player yahvk not exists").room,
        Some(room)
    );
    assert_eq!(
        table.game.players.get(&player2).expect("player yahvk2 not exists").room,
        Some(room)
    );
    let players = table.game.rooms.get(&room).expect("room not exists").players.to_owned();
    let mut should = HashSet::new();
    should.insert(player);
    should.insert(player2);
    assert_eq!(players, should);
}

#[test]
fn test_start_game() {
    let mut table = Table::new();
    let player = table.new_player("yahvk");
    let player2 = table.new_player("yahv");
    let room = table.create_room(player);
    table.join_room(player2, room);

    table.act(player, Action::Ready(1, 2));
    {
        let p1 = table.game.players.get(&player).unwrap();
        let p2 = table.game.players.get(&player2).unwrap();
        assert_eq!(p1.ready, true);
        assert_eq!(p2.ready, false);
        assert_eq!(p1.ingame.as_ref().expect("player not have ingame").position, (1, 2));
        assert!(p2.ingame.is_none());
        let room = table.game.rooms.get(&room).expect("room not exists");
        assert!(room.order.is_empty());
    }
    table.nothing(player);

    table.act(player2, Action::Ready(1, 1));
    if !matches!(table.receive(player), Response::GameStarted) {
        panic!("player1 game not start")
    };
    if !matches!(table.receive(player2), Response::GameStarted) {
        panic!("player2 game not start")
    };

    let p1 = table.game.players.get(&player).unwrap();
    let p2 = table.game.players.get(&player2).unwrap();
    assert_eq!(p1.ready, true);
    assert_eq!(p2.ready, true);
    assert_eq!(p1.ingame.as_ref().expect("player1 not have ingame").position, (1, 2));
    assert_eq!(p2.ingame.as_ref().expect("player2 not have ingame").position, (1, 1));
    let room = table.game.rooms.get(&room).expect("room not exists");
    assert_eq!(room.is_gamming(), true);
    assert_eq!(room.order.len(), 2);
}

fn attack_of(res: Response) -> (u8, u8) {
    match res {
        Response::Event(Event::Attack(x, y)) => (x, y),
        Response::Event(_) => panic!("No Attack boardcast"),
        _ => panic!("Not game respond"),
    }
}

fn run_of(res: Response) -> (u8, u8) {
    match res {
        Response::Event(Event::Run(x, y)) => (x, y),
        Response::Event(_) => panic!("No Run boardcast"),
        _ => panic!("Not game respond"),
    }
}

fn death_of(res: Response) -> String {
    match res {
        Response::Event(Event::Die(name)) => name,
        Response::Event(_) => panic!("Player didn't died"),
        _ => panic!("Not game respond"),
    }
}

fn winner_of(res: Response) -> String {
    match res {
        Response::Event(Event::GameEnd(name)) => name,
        Response::Event(_) => panic!("Game didn't ended"),
        _ => panic!("Not game respond"),
    }
}

fn order_of(res: Response) -> Vec<u64> {
    match res {
        Response::Sync(Data::PlayersOrder(order)) => order,
        Response::Sync(_) => panic!("not Sync order"),
        _ => panic!("not Sync"),
    }
}

#[test]
fn test_a_full_game() {
    let (mut table, (pl1, pl2)) = start_game();

    table.act(pl1, Action::Game(GameAction::Attack(1, 2)));
    assert_eq!(attack_of(table.receive(pl1)), (1, 2), "Attack location wrong");
    assert_eq!(attack_of(table.receive(pl2)), (1, 2), "Attack location wrong");

    table.act(pl1, Action::Game(GameAction::End));
    assert_eq!(order_of(table.receive(pl1)), vec![pl2, pl1]);
    assert_eq!(order_of(table.receive(pl2)), vec![pl2, pl1]);
    assert!(is_turn_start(&table.receive(pl2)), "pl2 turn not start");

    table.act(pl2, Action::Game(GameAction::Run(2, 2)));
    assert_eq!(run_of(table.receive(pl1)), (1, 1), "Run location wrong");
    assert_eq!(run_of(table.receive(pl2)), (1, 1), "Run location wrong");

    table.act(pl2, Action::Game(GameAction::End));
    assert_eq!(order_of(table.receive(pl1)), vec![pl1, pl2]);
    assert_eq!(order_of(table.receive(pl2)), vec![pl1, pl2]);
    assert!(is_turn_start(&table.receive(pl1)), "pl1 turn not start");

    table.act(pl1, Action::Game(GameAction::Move(1, 2)));
    table.nothing(pl1);
    table.nothing(pl2);

    table.act(pl1, Action::Game(GameAction::Attack(2, 2)));
    assert_eq!(attack_of(table.receive(pl1)), (2, 2), "Attack location wrong");
    assert_eq!(attack_of(table.receive(pl2)), (2, 2), "Attack location wrong");
    assert_eq!(death_of(table.receive(pl1)), name_of(&table, pl2));
    assert_eq!(death_of(table.receive(pl2)), name_of(&table, pl2));
    assert_eq!(winner_of(table.receive(pl1)), name_of(&table, pl1));
    assert_eq!(winner_of(table.receive(pl2)), name_of(&table, pl1));
    table.nothing(pl1);
    table.nothing(pl2);
}

fn name_of(table: &Table, player: u64) -> String {
    table.game.players.get(&player).unwrap().name.clone()
}

fn error_of(res: Response) -> Error {
    match res {
        Response::Error(e) => e,
        _ => panic!("Not error"),
    }
}

#[test]
fn test_illegal_action() {
    let (mut table, (pl1, pl2)) = start_game();

    table.act(pl2, Action::Game(GameAction::Attack(1, 2)));
    assert_eq!(error_of(table.receive(pl2)), Error::NotYourTurn, "No not your turn error");
    table.nothing(pl1);

    table.act(pl1, Action::Game(GameAction::Attack(1, 2)));
    table.receive(pl1);
    table.receive(pl2);

    table.act(pl1, Action::Game(GameAction::Move(1, 2)));
    assert_eq!(
        error_of(table.receive(pl1)),
        Error::ActionOrderIncorrect,
        "No action order incorrect error"
    );

    table.act(pl1, Action::Game(GameAction::End));
    table.skip(pl1, 1);
    table.skip(pl2, 2);

    table.act(pl1, Action::Game(GameAction::Attack(1, 2)));
    assert_eq!(error_of(table.receive(pl1)), Error::NotYourTurn, "No not your turn error");

    table.act(pl2, Action::Game(GameAction::Move(4, 4)));
    assert_eq!(
        error_of(table.receive(pl2)),
        Error::IllegalParameter,
        "No illegal parameter error"
    );

    table.act(pl2, Action::Game(GameAction::Move(1, 2)));
    table.nothing(pl2);

    table.act(pl2, Action::Game(GameAction::Attack(2, 2)));
    assert!(!matches!(table.receive(pl2), Response::Error(_)));
}

#[test]
fn test_once_kill_all() {
    let (mut table, room, pl, _all) = start_four();

    table.act(pl, Action::Game(GameAction::Move(1, 2)));
    table.act(pl, Action::Game(GameAction::Attack(1, 1)));
    assert_eq!(attack_of(table.receive(pl)), (1, 1), "No attack boardcast");
    death_of(table.receive(pl));
    death_of(table.receive(pl));
    death_of(table.receive(pl));
    let winner = winner_of(table.receive(pl));

    let p = table.game.players.get(&pl).unwrap();
    let name = p.name.clone();
    assert_eq!(p.ingame.as_ref().expect("player not have ingame").position, (1, 2));

    let room = table.game.rooms.get(&room).expect("room not exists");
    assert_eq!(room.is_gamming(), false);
    assert_eq!(room.order.len(), 1);
    assert_eq!(room.winner(), Some(pl));
    assert_eq!(winner, name);
}

#[test]
fn test_once_kill_all_include_self() {
    let (mut table, room, pl, _all) = start_four();
    let name = name_of(&table, pl);

    table.act(pl, Action::Game(GameAction::Attack(1, 1)));
    assert_eq!(attack_of(table.receive(pl)), (1, 1), "No attack boardcast");
    death_of(table.receive(pl));
    death_of(table.receive(pl));
    death_of(table.receive(pl));
    assert_eq!(death_of(table.receive(pl)), name, "Self didn't died");
    let winner = winner_of(table.receive(pl));

    let p = table.game.players.get(&pl).unwrap();
    let pname = p.name.clone();
    let room = table.game.rooms.get(&room).expect("room not exists");
    assert_eq!(room.is_gamming(), false);
    assert_eq!(room.order.len(), 1);
    assert_eq!(room.winner(), Some(pl));
    assert_eq!(winner, name);
    assert_eq!(winner, pname);
}

#[test]
fn test_sync_data() {
    let (mut table, (pl1, pl2)) = start_game();

    table.act(pl1, Action::Game(GameAction::Move(1, 2)));
    table.act(pl1, Action::Game(GameAction::End));
    table.skip(pl1, 1);
    table.skip(pl2, 2);

    table.act(pl1, Action::RequestData(DataType::Player));
    let (name, id, (x, y)) = match table.receive(pl1) {
        Response::Sync(Data::Player { name, id, position }) => (name, id, position),
        Response::Sync(_) => panic!("not Sync Player"),
        _ => panic!("not Sync"),
    };

    table.act(pl1, Action::RequestData(DataType::PlayersOrder));
    let players = order_of(table.receive(pl1));

    let p1 = table.game.players.get(&pl1).unwrap();
    let p2 = table.game.players.get(&pl2).unwrap();
    assert_eq!(p1.id, id);
    assert_eq!(p1.name, name);
    assert_eq!(x, 1);
    assert_eq!(y, 2);
    assert_eq!(players[0], p2.id);
    assert_eq!(players[1], p1.id);
}
