//! The engine: sole owner of the player and room registries.
//!
//! Every function here is specified by the model in [`crate::model`]: the
//! view of the engine after a call is the model's function applied to the
//! view before it.

use crate::chance::{next_id, seeded_rng};
use crate::consistency::{
    lemma_admit_wf, lemma_attack_wf, lemma_create_room_wf, lemma_deliver_keeps_match,
    lemma_end_turn_wf, lemma_enter_wf, lemma_game_action_wf, lemma_listing_idle,
    lemma_match_settles, lemma_mourn_mail, lemma_readied_wf, lemma_reorder_wf, lemma_rotated_wf,
    lemma_set_ingame_wf, lemma_single_listing, lemma_started_wf, lemma_struck_wf,
    lemma_sync_keeps_match, lemma_try_start_wf, lemma_vacate_other_room,
};
use crate::ids::fresh_id;
use crate::model::{
    GameState, lemma_broadcast_mail, lemma_deliver_wf, lemma_evict_wf, lemma_mail_chain,
    lemma_mail_keeps_wf, lemma_open_keeps_wf, lemma_vacate_wf,
};
use crate::player::{IngameProp, Player, PlayerExport};
use crate::protocol::{
    Action, Data, DataType, DataView, Error, Event, EventView, GameAction, Message, Response,
    names_view,
};
use crate::room::{Room, RoomExport, RoomState, lemma_filter_step, players_view, rotate};
use crate::utils::{Distance, In};
use rand::rngs::SmallRng;
use std::collections::HashMap;
use vstd::prelude::*;
use vstd::std_specs::iter::IteratorSpec;

verus! {

broadcast use {vstd::std_specs::hash::group_hash_axioms, crate::model::lemma_reinsert};

/// The views of the rooms of a registry.
pub open spec fn rooms_view(rooms: Map<u64, Room>) -> Map<u64, RoomState> {
    rooms.map_values(|r: Room| r@)
}

/// A snapshot of the engine: every player without the mailbox, and every
/// room.
#[derive(Debug, PartialEq, Eq)]
pub struct GameExport {
    pub players: HashMap<u64, PlayerExport>,
    pub rooms: HashMap<u64, RoomExport>,
}

impl Clone for GameExport {
    /// A snapshot of the same players and rooms.
    fn clone(&self) -> (e: GameExport)
        ensures
            e.players@ == self.players@,
            e.rooms@ == self.rooms@,
    {
        GameExport { players: self.players.clone(), rooms: self.rooms.clone() }
    }
}

impl GameExport {
    /// The snapshot shows the state `g`: the same players and rooms, each
    /// shown by its own snapshot.
    pub open spec fn shows(self, g: GameState) -> bool {
        &&& self.players@.dom() == g.players.dom()
        &&& self.rooms@.dom() == g.rooms.dom()
        &&& forall|p: u64| #[trigger]
            g.players.contains_key(p) ==> self.players@[p].shows(g.players[p])
        &&& forall|r: u64| #[trigger] g.rooms.contains_key(r) ==> self.rooms@[r].shows(g.rooms[r])
    }
}

/// The session engine.
pub struct Game {
    pub players: HashMap<u64, Player>,
    pub rooms: HashMap<u64, Room>,
    pub id_rng: SmallRng,
}

impl View for Game {
    type V = GameState;

    open spec fn view(&self) -> GameState {
        GameState { players: players_view(self.players@), rooms: rooms_view(self.rooms@) }
    }
}

impl Game {
    /// An engine without players or rooms. `seed` seeds the generator of
    /// identifiers.
    pub fn new(seed: u64) -> (game: Game)
        ensures
            game@ == GameState::empty(),
            game@.wf(),
    {
        let game = Game { players: HashMap::new(), rooms: HashMap::new(), id_rng: seeded_rng(seed) };
        assert(game@.players =~= Map::empty());
        assert(game@.rooms =~= Map::empty());
        game
    }

    /// Takes the record of a registered player out of the registry.
    fn take_player(&mut self, id: u64) -> (player: Player)
        requires
            old(self)@.players.contains_key(id),
        ensures
            player@ == old(self)@.players[id],
            final(self)@.players == old(self)@.players.remove(id),
            final(self)@.rooms == old(self)@.rooms,
    {
        let found = self.players.remove(&id);
        assert(self@.players =~= old(self)@.players.remove(id));
        found.unwrap()
    }

    /// Puts a player's record into the registry under `id`.
    fn put_player(&mut self, id: u64, player: Player)
        ensures
            final(self)@.players == old(self)@.players.insert(id, player@),
            final(self)@.rooms == old(self)@.rooms,
    {
        self.players.insert(id, player);
        assert(self@.players =~= old(self)@.players.insert(id, player@));
    }

    /// Takes a room out of the registry, if it is there.
    fn take_room(&mut self, id: u64) -> (room: Option<Room>)
        ensures
            room is Some <==> old(self)@.rooms.contains_key(id),
            room matches Some(r) ==> r@ == old(self)@.rooms[id],
            final(self)@.rooms == old(self)@.rooms.remove(id),
            final(self)@.players == old(self)@.players,
    {
        let found = self.rooms.remove(&id);
        assert(self@.rooms =~= old(self)@.rooms.remove(id));
        found
    }

    /// Puts a room into the registry under `id`.
    fn put_room(&mut self, id: u64, room: Room)
        ensures
            final(self)@.rooms == old(self)@.rooms.insert(id, room@),
            final(self)@.players == old(self)@.players,
    {
        self.rooms.insert(id, room);
        assert(self@.rooms =~= old(self)@.rooms.insert(id, room@));
    }

    /// Registers a newly connected player under a fresh id and returns the id.
    pub fn insert_player(&mut self, name: String) -> (id: u64)
        requires
            old(self)@.wf(),
        ensures
            !old(self)@.players.contains_key(id),
            final(self)@ == old(self)@.registered(id, name@),
            final(self)@.wf(),
    {
        let id = fresh_id(&self.players, &mut self.id_rng);
        assert(!self@.players.contains_key(id));
        self.put_player(id, Player::new(id, name));
        proof {
            let g = old(self)@;
            let h = self@;
            assert forall|p: u64| #[trigger] h.players.contains_key(p) implies h.player_ok(p) by {
                if p != id {
                    assert(g.player_ok(p));
                }
            }
            assert forall|r: u64| #[trigger] h.rooms.contains_key(r) implies h.room_ok(r) by {
                assert(g.room_ok(r));
                let room = g.rooms[r];
                assert forall|i: int| 0 <= i < room.order.len() implies h.in_game(
                    #[trigger] room.order[i],
                ) by {
                    assert(g.in_game(room.order[i]));
                }
            }
        }
        id
    }

    /// Posts `res` to every member of `room`, skipping closed mailboxes.
    fn broadcast(&mut self, room: u64, res: Response)
        requires
            old(self)@.rooms.contains_key(room),
            forall|m: u64| #[trigger]
                old(self)@.rooms[room].members.contains(m) ==> old(self)@.players.contains_key(m),
        ensures
            final(self)@ == old(self)@.broadcast(room, res@),
    {
        let found = self.rooms.get(&room);
        let target = found.unwrap();
        assert forall|m: u64| target@.members.contains(m) implies self.players@.contains_key(m) by {
            assert(self@.rooms[room].members.contains(m));
            assert(self@.players.contains_key(m));
        }
        target.boardcast(res, &mut self.players);
    }

    /// Runs win detection in `room` and tells every member of a winner.
    fn announce_winner(&mut self, room: u64)
        requires
            old(self)@.rooms.contains_key(room),
            forall|m: u64| #[trigger]
                old(self)@.rooms[room].members.contains(m) ==> old(self)@.players.contains_key(m),
            old(self)@.rooms[room].winner() matches Some(w) ==> old(self)@.players.contains_key(w),
        ensures
            final(self)@ == old(self)@.announce_winner(room),
    {
        let found = self.rooms.get(&room);
        let winner = found.unwrap().winner();
        if let Some(w) = winner {
            let champion = self.players.get(&w);
            let name = champion.unwrap().name.clone();
            self.broadcast(room, Response::Event(Event::GameEnd(name)));
        }
    }

    /// Takes player `pid` out of the room the player is in, if any.
    fn vacate(&mut self, pid: u64)
        requires
            old(self)@.wf(),
            old(self)@.players.contains_key(pid),
        ensures
            final(self)@ == old(self)@.vacate(pid),
            final(self)@.wf(),
    {
        proof {
            lemma_vacate_wf(old(self)@, pid);
            assert(old(self)@.player_ok(pid));
        }
        let mut player = self.take_player(pid);
        let room_id = player.room;
        let name = player.name.clone();
        player.room = None;
        self.put_player(pid, player);
        if let Some(r) = room_id {
            assert(old(self)@.room_ok(r));
            let found = self.take_room(r);
            let mut room = found.unwrap();
            room.leave(pid);
            if room.players.len() != 0 {
                self.put_room(r, room);
                proof {
                    let h = self@;
                    assert forall|m: u64| #[trigger]
                        h.rooms[r].members.contains(m) implies h.players.contains_key(m) by {
                        assert(old(self)@.rooms[r].members.contains(m));
                    }
                }
                self.broadcast(r, Response::Event(Event::Disconnected(name)));
                proof {
                    let h = self@;
                    if let Some(w) = h.rooms[r].winner() {
                        assert(h.rooms[r].members.contains(h.rooms[r].order[0]));
                        assert(old(self)@.rooms[r].members.contains(w));
                    }
                    assert forall|m: u64| #[trigger]
                        h.rooms[r].members.contains(m) implies h.players.contains_key(m) by {
                        assert(old(self)@.rooms[r].members.contains(m));
                    }
                }
                self.announce_winner(r);
            }
        }
        assert(self@.players =~= old(self)@.vacate(pid).players);
        assert(self@.rooms =~= old(self)@.vacate(pid).rooms);
    }

    /// Removes a player: the player leaves the room and the registry. The
    /// result tells whether the player was registered.
    pub fn remove_player(&mut self, id: u64) -> (found: bool)
        requires
            old(self)@.wf(),
        ensures
            found == old(self)@.players.contains_key(id),
            final(self)@ == old(self)@.evict(id),
            final(self)@.wf(),
    {
        proof {
            lemma_evict_wf(old(self)@, id);
        }
        if !self.players.contains_key(&id) {
            return false;
        }
        self.vacate(id);
        proof {
            lemma_vacate_wf(old(self)@, id);
        }
        self.take_player(id);
        true
    }

    /// Send or evict: delivers `res` to `pid`, or removes a player whose
    /// mailbox is closed.
    fn deliver(&mut self, pid: u64, res: Response)
        requires
            old(self)@.wf(),
        ensures
            final(self)@ == old(self)@.deliver(pid, res@),
            final(self)@.wf(),
    {
        proof {
            lemma_deliver_wf(old(self)@, pid, res@);
        }
        if !self.players.contains_key(&pid) {
            return ;
        }
        let mut player = self.take_player(pid);
        let sent = player.send(res);
        self.put_player(pid, player);
        assert(self@.players =~= old(self)@.players.insert(pid, old(self)@.players[pid].post(res@)));
        if !sent {
            assert(self@.players =~= old(self)@.players);
            self.remove_player(pid);
        }
    }

    /// The names of the members of `room` by id.
    fn member_names(&self, room: u64) -> (names: HashMap<u64, String>)
        requires
            self@.rooms.contains_key(room),
            forall|m: u64| #[trigger]
                self@.rooms[room].members.contains(m) ==> self@.players.contains_key(m),
        ensures
            names_view(names@) == self@.member_names(room),
    {
        let found = self.rooms.get(&room);
        let list = found.unwrap().member_list();
        let ghost members = self@.rooms[room].members;
        let mut names: HashMap<u64, String> = HashMap::new();
        let mut i: usize = 0;
        while i < list.len()
            invariant
                i <= list.len(),
                list@.to_set() == members,
                members == self@.rooms[room].members,
                forall|m: u64| #[trigger] members.contains(m) ==> self@.players.contains_key(m),
                forall|k: u64| #[trigger]
                    names@.contains_key(k) ==> members.contains(k) && names@[k]@
                        == self@.players[k].name,
                forall|j: int| 0 <= j < i ==> names@.contains_key(#[trigger] list@[j]),
            decreases list.len() - i,
        {
            let id = list[i];
            assert(list@.to_set().contains(list@[i as int]));
            assert(self@.players.contains_key(id));
            let member = self.players.get(&id);
            names.insert(id, member.unwrap().name.clone());
            i += 1;
        }
        proof {
            assert forall|k: u64| members.contains(k) implies names@.contains_key(k) by {
                assert(list@.to_set().contains(k));
                let j = choose|j: int| 0 <= j < list@.len() && list@[j] == k;
                assert(names@.contains_key(list@[j]));
            }
            assert(names_view(names@) =~= self@.member_names(room));
        }
        names
    }

    /// The names of all rooms by id.
    fn room_names(&self) -> (names: HashMap<u64, String>)
        ensures
            names_view(names@) == self@.room_names(),
    {
        let mut names: HashMap<u64, String> = HashMap::new();
        let ghost walk = self.rooms.iter().remaining();
        for entry in it: self.rooms.iter()
            invariant
                it.seq() == walk,
                walk == self.rooms.iter().remaining(),
                forall|k: u64| #[trigger]
                    names@.contains_key(k) ==> self.rooms@.contains_key(k) && names@[k]@
                        == self.rooms@[k].name@,
                forall|j: int| 0 <= j < it.index() ==> names@.contains_key(*(#[trigger] walk[j]).0),
        {
            let (id, room) = entry;
            assert(self.rooms@.contains_key(*walk[it.index()].0));
            assert(self.rooms@[*walk[it.index()].0] == *walk[it.index()].1);
            names.insert(*id, room.name.clone());
        }
        proof {
            assert forall|k: u64| self.rooms@.contains_key(k) implies names@.contains_key(k) by {
                assert(walk.contains((&k, &self.rooms@[k])));
                let j = choose|j: int| 0 <= j < walk.len() && walk[j] == (&k, &self.rooms@[k]);
                assert(names@.contains_key(*walk[j].0));
            }
            assert(names_view(names@) =~= self@.room_names());
        }
        names
    }

    /// Builds the answer to a request of `pid` for the projection `ty`. The
    /// second component is the member listing that the answer uses where the
    /// room is in the lobby.
    fn reply(&self, pid: u64, ty: DataType) -> (out: (Response, Ghost<Seq<u64>>))
        requires
            self@.wf(),
            self@.players.contains_key(pid),
        ensures
            self@.listing_fits(pid, ty, out.1@),
            out.0@ == self@.reply(pid, ty, out.1@),
    {
        let found = self.players.get(&pid);
        let player = found.unwrap();
        assert(player@ == self@.players[pid]);
        assert(self@.player_ok(pid));
        match ty {
            DataType::Player => {
                let res = match player.ingame {
                    Some(prop) => Response::Sync(
                        Data::Player {
                            name: player.name.clone(),
                            id: player.id,
                            position: prop.position,
                        },
                    ),
                    None => Response::Error(Error::NotInGame),
                };
                (res, Ghost(Seq::empty()))
            },
            DataType::PlayersOrder => match player.room {
                Some(r) => {
                    let room = self.rooms.get(&r).unwrap();
                    if room.order.len() == 0 {
                        let list = room.member_list();
                        let ghost listing = list@;
                        (Response::Sync(Data::PlayersOrder(list)), Ghost(listing))
                    } else {
                        (Response::Sync(Data::PlayersOrder(room.order_list())), Ghost(Seq::empty()))
                    }
                },
                None => (Response::Error(Error::NotJoinedRoom), Ghost(Seq::empty())),
            },
            DataType::PlayersName => match player.room {
                Some(r) => {
                    assert(self@.room_ok(r));
                    let names = self.member_names(r);
                    (Response::Sync(Data::PlayersName(names)), Ghost(Seq::empty()))
                },
                None => (Response::Error(Error::NotJoinedRoom), Ghost(Seq::empty())),
            },
            DataType::RoomList => {
                let names = self.room_names();
                (Response::Sync(Data::RoomList(names)), Ghost(Seq::empty()))
            },
        }
    }

    /// Answers a request of `pid` for the projection `ty`, send or evict.
    /// The result is the member listing used where the room is in the lobby.
    fn send_data(&mut self, pid: u64, ty: DataType) -> (listing: Ghost<Seq<u64>>)
        requires
            old(self)@.wf(),
        ensures
            old(self)@.listing_fits(pid, ty, listing@),
            final(self)@ == old(self)@.request(pid, ty, listing@),
            final(self)@.wf(),
    {
        if !self.players.contains_key(&pid) {
            return Ghost(Seq::empty());
        }
        let (res, listing) = self.reply(pid, ty);
        self.deliver(pid, res);
        listing
    }

    /// Writes the in-game state of a player who has one.
    fn set_ingame(&mut self, pid: u64, prop: IngameProp)
        requires
            old(self)@.wf(),
            old(self)@.in_game(pid),
        ensures
            final(self)@ == old(self)@.set_ingame(pid, prop),
            final(self)@.wf(),
    {
        proof {
            lemma_set_ingame_wf(old(self)@, pid, prop);
        }
        let mut player = self.take_player(pid);
        let slot = player.ingame_mut();
        *slot = prop;
        self.put_player(pid, player);
    }

    /// The turn order of `room` as scanned by an attack: from just behind
    /// the current player round to the current player.
    fn scan_order(&self, room: u64) -> (scan: Vec<u64>)
        requires
            self@.rooms.contains_key(room),
            self@.rooms[room].order.len() > 0,
        ensures
            scan@ == rotate(self@.rooms[room].order),
    {
        let found = self.rooms.get(&room);
        let mut scan = found.unwrap().order_list();
        let front = scan.remove(0);
        scan.push(front);
        assert(scan@ =~= rotate(self@.rooms[room].order));
        scan
    }

    /// Resolves an attack of the current player `pid` of `room` on `(x, y)`.
    fn attack(&mut self, pid: u64, room: u64, x: u8, y: u8)
        requires
            old(self)@.wf(),
            old(self)@.in_game(pid),
            old(self)@.rooms.contains_key(room),
            old(self)@.rooms[room].order.len() > 0,
        ensures
            final(self)@ == old(self)@.attack(pid, room, x, y),
            final(self)@.wf(),
    {
        let ghost g = old(self)@;
        proof {
            lemma_attack_wf(g, pid, room, x, y);
        }
        let prop = *self.players.get(&pid).unwrap().ingame();
        self.set_ingame(pid, IngameProp { position: prop.position, stage: 2 });
        let ghost a = self@;
        proof {
            assert(a.room_ok(room));
        }
        self.broadcast(room, Response::Event(Event::Attack(x, y)));
        let ghost b = self@;
        let ghost hit = g.stands_at(x, y);
        proof {
            lemma_broadcast_mail(a, room, Message::Event(EventView::Attack(x, y)));
        }
        let scan = self.scan_order(room);
        let mut dead: Vec<u64> = Vec::new();
        let mut i: usize = 0;
        proof {
            assert(scan@.take(0).filter(hit) =~= Seq::<u64>::empty()) by {
                reveal(Seq::filter);
            }
        }
        while i < scan.len()
            invariant
                i <= scan.len(),
                g.wf(),
                a.wf(),
                a == g.set_ingame(pid, IngameProp { position: prop.position, stage: 2 }),
                g.in_game(pid),
                g.players[pid].ingame->0 == prop,
                a.same_but_mail(b),
                hit == g.stands_at(x, y),
                g.rooms.contains_key(room),
                g.rooms[room].order.len() > 0,
                scan@ == rotate(g.rooms[room].order),
                dead@ == scan@.take(i as int).filter(hit),
                self@ == b.mourn(room, dead@),
            decreases scan.len() - i,
        {
            let id = scan[i];
            let ghost now = self@;
            proof {
                lemma_mourn_mail(b, room, dead@);
                lemma_mail_chain(a, b, now);
                lemma_mail_keeps_wf(a, now);
                lemma_filter_step(scan@, i as int, hit);
                assert(now.room_ok(room));
                lemma_rotated_wf(g.rooms[room]);
                assert(rotate(g.rooms[room].order).contains(scan@[i as int]));
                assert(g.rooms[room].order.contains(id));
                let k = choose|k: int|
                    0 <= k < g.rooms[room].order.len() && g.rooms[room].order[k] == id;
                assert(g.room_ok(room));
                assert(g.in_game(g.rooms[room].order[k]));
                assert(a.players.contains_key(id));
                assert(now.players.contains_key(id));
            }
            let target = self.players.get(&id).unwrap();
            let at = target.ingame().position;
            if at.0 == x && at.1 == y {
                let name = target.name.clone();
                self.broadcast(room, Response::Event(Event::Die(name)));
                dead.push(id);
                proof {
                    assert(dead@.drop_last() =~= scan@.take(i as int).filter(hit));
                }
            }
            i += 1;
        }
        proof {
            scan@.lemma_take_len();
            lemma_mourn_mail(b, room, dead@);
            lemma_mail_chain(a, b, self@);
            lemma_mail_keeps_wf(a, self@);
            assert(self@.room_ok(room));
            lemma_struck_wf(self@.rooms[room], dead@.to_set());
            lemma_reorder_wf(self@, room, self@.rooms[room].struck(dead@.to_set()));
        }
        let found = self.take_room(room);
        let mut target = found.unwrap();
        target.kill_players(dead.as_slice());
        self.put_room(room, target);
        proof {
            let d = self@;
            assert(d.room_ok(room));
            if let Some(w) = d.rooms[room].winner() {
                assert(d.in_game(d.rooms[room].order[0]));
            }
        }
        self.announce_winner(room);
    }

    /// Ends the turn of the current player `pid` of `room`.
    fn end_turn(&mut self, pid: u64, room: u64)
        requires
            old(self)@.wf(),
            old(self)@.in_game(pid),
            old(self)@.rooms.contains_key(room),
            old(self)@.rooms[room].order.len() > 0,
        ensures
            final(self)@ == old(self)@.end_turn(pid, room),
            final(self)@.wf(),
    {
        let ghost g = old(self)@;
        proof {
            lemma_end_turn_wf(g, pid, room);
        }
        let prop = *self.players.get(&pid).unwrap().ingame();
        self.set_ingame(pid, IngameProp { position: prop.position, stage: 0 });
        proof {
            assert(self@.room_ok(room));
            lemma_rotated_wf(self@.rooms[room]);
            lemma_reorder_wf(self@, room, self@.rooms[room].rotated());
        }
        let found = self.take_room(room);
        let mut target = found.unwrap();
        let next = target.push_player();
        let order = target.order_list();
        self.put_room(room, target);
        proof {
            assert(self@.room_ok(room));
            lemma_broadcast_mail(self@, room, Message::Sync(DataView::PlayersOrder(order@)));
            lemma_mail_keeps_wf(
                self@,
                self@.broadcast(room, Message::Sync(DataView::PlayersOrder(order@))),
            );
        }
        self.broadcast(room, Response::Sync(Data::PlayersOrder(order)));
        self.deliver(next, Response::Event(Event::TurnStart));
    }

    /// Carries out an in-game action of the registered player `player_id`.
    fn perform_game_action(&mut self, player_id: u64, action: GameAction)
        requires
            old(self)@.wf(),
            old(self)@.players.contains_key(player_id),
        ensures
            final(self)@ == old(self)@.game_action(player_id, action),
            final(self)@.wf(),
    {
        let ghost g = old(self)@;
        proof {
            lemma_game_action_wf(g, player_id, action);
        }
        let found = self.players.get(&player_id);
        let player = found.unwrap();
        let room_id = match player.room {
            Some(id) => id,
            None => {
                self.deliver(player_id, Response::Error(Error::NotJoinedRoom));
                return ;
            },
        };
        let front = match self.rooms.get(&room_id) {
            Some(room) => if room.order.len() == 0 {
                None
            } else {
                Some(room.currect_player_id())
            },
            None => {
                self.deliver(player_id, Response::Error(Error::RoomNotFound));
                return ;
            },
        };
        let current = match front {
            Some(id) => id,
            None => {
                self.deliver(player_id, Response::Error(Error::NotInGame));
                return ;
            },
        };
        if current != player_id {
            self.deliver(player_id, Response::Error(Error::NotYourTurn));
            return ;
        }
        proof {
            assert(g.room_ok(room_id));
            assert(g.in_game(g.rooms[room_id].order[0]));
        }
        let prop = *self.players.get(&player_id).unwrap().ingame();
        match action {
            GameAction::Move(x, y) => {
                if prop.stage > 0 {
                    self.deliver(player_id, Response::Error(Error::ActionOrderIncorrect));
                } else if (x, y).distance(&prop.position) > 1 {
                    self.deliver(player_id, Response::Error(Error::IllegalParameter));
                } else {
                    self.set_ingame(player_id, IngameProp { position: (x, y), stage: 1 });
                }
            },
            GameAction::Attack(x, y) => {
                if prop.stage > 1 {
                    self.deliver(player_id, Response::Error(Error::ActionOrderIncorrect));
                } else if (x, y).distance(&prop.position) > 1 {
                    self.deliver(player_id, Response::Error(Error::IllegalParameter));
                } else {
                    self.attack(player_id, room_id, x, y);
                }
            },
            GameAction::Run(x, y) => {
                if prop.stage > 0 {
                    self.deliver(player_id, Response::Error(Error::ActionOrderIncorrect));
                } else if (x, y).distance(&prop.position) != 2 {
                    self.deliver(player_id, Response::Error(Error::IllegalParameter));
                } else {
                    self.set_ingame(player_id, IngameProp { position: (x, y), stage: 1 });
                    proof {
                        assert(self@.room_ok(room_id));
                    }
                    self.broadcast(
                        room_id,
                        Response::Event(Event::Run(prop.position.0, prop.position.1)),
                    );
                }
            },
            GameAction::End => {
                self.end_turn(player_id, room_id);
            },
        }
    }

    /// Sends `pid` identity, turn order and member names. The player, if
    /// still registered, is in a room with a turn order.
    fn sync(&mut self, pid: u64)
        requires
            old(self)@.wf(),
            !old(self)@.listing_matters(pid, DataType::PlayersOrder),
        ensures
            final(self)@ == old(self)@.sync(pid),
            final(self)@.wf(),
    {
        let ghost none = Seq::<u64>::empty();
        let ghost g = old(self)@;
        let first = self.send_data(pid, DataType::Player);
        proof {
            lemma_listing_idle(g, pid, DataType::Player, first@, none);
            lemma_evict_wf(g, pid);
        }
        let ghost a = self@;
        let second = self.send_data(pid, DataType::PlayersOrder);
        proof {
            lemma_listing_idle(a, pid, DataType::PlayersOrder, second@, none);
        }
        let ghost b = self@;
        let third = self.send_data(pid, DataType::PlayersName);
        proof {
            lemma_listing_idle(b, pid, DataType::PlayersName, third@, none);
        }
    }

    /// Tells the front of the turn order of `room` that the turn starts.
    fn announce_turn(&mut self, room: u64)
        requires
            old(self)@.wf(),
        ensures
            final(self)@ == old(self)@.announce_turn(room),
            final(self)@.wf(),
    {
        let front = match self.rooms.get(&room) {
            Some(target) => if target.order.len() > 0 {
                Some(target.currect_player_id())
            } else {
                None
            },
            None => None,
        };
        if let Some(id) = front {
            self.deliver(id, Response::Event(Event::TurnStart));
        }
    }

    /// Whether every member of `room` is ready.
    fn all_ready(&self, room: u64) -> (ready: bool)
        requires
            self@.wf(),
            self@.rooms.contains_key(room),
        ensures
            ready == self@.all_ready(room),
    {
        let found = self.rooms.get(&room);
        let list = found.unwrap().member_list();
        let ghost members = self@.rooms[room].members;
        let mut i: usize = 0;
        assert(self@.room_ok(room));
        while i < list.len()
            invariant
                i <= list.len(),
                list@.to_set() == members,
                members == self@.rooms[room].members,
                forall|m: u64| #[trigger] members.contains(m) ==> self@.players.contains_key(m),
                forall|j: int| 0 <= j < i ==> self@.players[#[trigger] list@[j]].ready,
            decreases list.len() - i,
        {
            let id = list[i];
            assert(list@.to_set().contains(list@[i as int]));
            assert(self@.players.contains_key(id));
            let member = self.players.get(&id);
            if !member.unwrap().ready {
                return false;
            }
            i += 1;
        }
        proof {
            assert forall|m: u64| #[trigger] members.contains(m) implies self@.players[m].ready by {
                assert(list@.to_set().contains(m));
                let j = choose|j: int| 0 <= j < list@.len() && list@[j] == m;
                assert(self@.players[list@[j]].ready);
            }
        }
        true
    }

    /// Tries to start a match in `room`. The match starts only from the
    /// lobby, with at least two members who are all ready. The result is the
    /// shuffled turn order the match started with.
    fn try_start(&mut self, room_id: u64) -> (order: Ghost<Seq<u64>>)
        requires
            old(self)@.wf(),
            old(self)@.rooms.contains_key(room_id),
        ensures
            old(self)@.order_fits(room_id, order@),
            final(self)@ == old(self)@.try_start(room_id, order@),
            final(self)@.wf(),
    {
        let ghost g = old(self)@;
        let found = self.rooms.get(&room_id);
        let lobby = found.unwrap();
        if lobby.order.len() > 0 || lobby.players.len() < 2 {
            return Ghost(Seq::empty());
        }
        if !self.all_ready(room_id) {
            return Ghost(Seq::empty());
        }
        assert(g.can_start(room_id));
        let taken = self.take_room(room_id);
        let mut target = taken.unwrap();
        target.start();
        let ids = target.order_list();
        let ghost order = ids@;
        self.put_room(room_id, target);
        let ghost a = self@;
        proof {
            lemma_try_start_wf(g, room_id, order);
            lemma_started_wf(g, room_id, order);
            assert(a == (GameState {
                players: g.players,
                rooms: g.rooms.insert(room_id, g.rooms[room_id].started(order)),
            }));
            assert(a.wf());
            assert(a.rooms.contains_key(room_id));
            assert(a.room_ok(room_id));
            assert(a.match_on(order, room_id)) by {
                assert forall|m: u64| #[trigger]
                    a.rooms[room_id].members.contains(m) implies a.rooms[room_id].order.contains(
                    m,
                ) by {
                    assert(order.to_set().contains(m));
                }
                assert forall|j: int|
                    0 <= j < order.len() && a.players.contains_key(
                        #[trigger] order[j],
                    ) implies a.players[order[j]].room == Some(room_id) by {
                    assert(order.to_set().contains(order[j]));
                }
            }
        }
        let mut i: usize = 0;
        while i < ids.len()
            invariant
                i <= ids.len(),
                ids@ == order,
                a.wf(),
                self@ == a.deliver_each(order.take(i as int), Message::GameStarted),
                self@.wf(),
                self@.match_on(order, room_id),
            decreases ids.len() - i,
        {
            proof {
                assert(order.take(i as int + 1).drop_last() =~= order.take(i as int));
                lemma_deliver_keeps_match(self@, order, room_id, ids@[i as int], Message::GameStarted);
            }
            self.deliver(ids[i], Response::GameStarted);
            i += 1;
        }
        let ghost b = self@;
        proof {
            order.lemma_take_len();
        }
        let mut k: usize = 0;
        while k < ids.len()
            invariant
                k <= ids.len(),
                ids@ == order,
                b.wf(),
                self@ == b.sync_each(order.take(k as int)),
                self@.wf(),
                self@.match_on(order, room_id),
            decreases ids.len() - k,
        {
            proof {
                assert(order.take(k as int + 1).drop_last() =~= order.take(k as int));
                lemma_sync_keeps_match(self@, order, room_id, ids@[k as int]);
                lemma_match_settles(self@, order, room_id, k as int, DataType::PlayersOrder);
            }
            self.sync(ids[k]);
            k += 1;
        }
        proof {
            order.lemma_take_len();
        }
        self.announce_turn(room_id);
        Ghost(order)
    }

    /// Creates a room for the registered player `pid`. The result is the id
    /// of the new room.
    fn create_room(&mut self, pid: u64, name: String) -> (room_id: Ghost<u64>)
        requires
            old(self)@.wf(),
            old(self)@.players.contains_key(pid),
        ensures
            !old(self)@.rooms.contains_key(room_id@),
            final(self)@ == old(self)@.create_room(pid, name@, room_id@),
            final(self)@.wf(),
    {
        let ghost g = old(self)@;
        let id = fresh_id(&self.rooms, &mut self.id_rng);
        assert(!g.rooms.contains_key(id));
        proof {
            lemma_create_room_wf(g, pid, name@, id);
            lemma_vacate_wf(g, pid);
        }
        self.vacate(pid);
        let ghost v = self@;
        let seed = next_id(&mut self.id_rng);
        let ghost fresh = RoomState {
            name: name@,
            order: Seq::empty(),
            members: Set::empty(),
            contested: false,
        };
        let mut room = Room::new(name, seed);
        room.join(pid);
        self.put_room(id, room);
        let mut player = self.take_player(pid);
        player.room = Some(id);
        self.put_player(pid, player);
        let ghost w = GameState { players: v.players, rooms: v.rooms.insert(id, fresh) };
        let ghost e = w.enter(pid, id);
        proof {
            assert(self@.rooms =~= e.rooms);
            assert(self@.players =~= e.players);
            assert forall|p: u64| #[trigger] w.players.contains_key(p) implies w.player_ok(p) by {
                assert(v.player_ok(p));
            }
            assert forall|r: u64| #[trigger] w.rooms.contains_key(r) && r != id implies w.room_ok(
                r,
            ) by {
                assert(v.room_ok(r));
            }
            lemma_enter_wf(w, pid, id);
            lemma_deliver_wf(e, pid, Message::RoomCreated(id));
            lemma_evict_wf(e, pid);
        }
        self.deliver(pid, Response::RoomCreated(id));
        let ghost d = self@;
        let first = self.send_data(pid, DataType::PlayersName);
        proof {
            lemma_listing_idle(d, pid, DataType::PlayersName, first@, seq![pid]);
            lemma_evict_wf(d, pid);
        }
        let ghost c = self@;
        let second = self.send_data(pid, DataType::PlayersOrder);
        proof {
            if c.listing_matters(pid, DataType::PlayersOrder) {
                assert(c.rooms[id].members =~= set![pid]);
                lemma_single_listing(second@, pid);
            } else {
                lemma_listing_idle(c, pid, DataType::PlayersOrder, second@, seq![pid]);
            }
        }
        Ghost(id)
    }

    /// Lets the registered player `pid` join `room`. The result is the
    /// member listing sent where the room is in the lobby.
    fn join_room(&mut self, pid: u64, room: u64) -> (listing: Ghost<Seq<u64>>)
        requires
            old(self)@.wf(),
            old(self)@.players.contains_key(pid),
        ensures
            old(self)@.join_listing_fits(pid, room, listing@),
            final(self)@ == old(self)@.join_room(pid, room, listing@),
            final(self)@.wf(),
    {
        let ghost g = old(self)@;
        if !self.rooms.contains_key(&room) {
            self.deliver(pid, Response::Error(Error::RoomNotFound));
            return Ghost(Seq::empty());
        }
        proof {
            lemma_admit_wf(g, pid, room);
            lemma_vacate_wf(g, pid);
            assert(g.player_ok(pid));
        }
        let found = self.players.get(&pid);
        let inside = match found.unwrap().room {
            Some(r) => r == room,
            None => false,
        };
        if !inside {
            proof {
                lemma_vacate_other_room(g, pid, room);
            }
            self.vacate(pid);
        }
        let ghost v = self@;
        let taken = self.take_room(room);
        let mut target = taken.unwrap();
        proof {
            assert(v.room_ok(room));
        }
        target.join(pid);
        self.put_room(room, target);
        let mut player = self.take_player(pid);
        player.room = Some(room);
        self.put_player(pid, player);
        proof {
            let e = v.enter(pid, room);
            assert(self@.rooms =~= e.rooms);
            assert(self@.players =~= e.players);
            lemma_enter_wf(v, pid, room);
        }
        self.deliver(pid, Response::RoomJoined(room));
        let ghost d = self@;
        let first = self.send_data(pid, DataType::PlayersName);
        proof {
            lemma_listing_idle(d, pid, DataType::PlayersName, first@, Seq::empty());
        }
        self.send_data(pid, DataType::PlayersOrder)
    }

    /// Marks the registered player `pid` ready at `(x, y)` and tries to
    /// start the match. The result is the shuffled turn order of a match
    /// that started.
    fn ready(&mut self, pid: u64, x: u8, y: u8) -> (order: Ghost<Seq<u64>>)
        requires
            old(self)@.wf(),
            old(self)@.players.contains_key(pid),
        ensures
            old(self)@.ready_order_fits(pid, x, y, order@),
            final(self)@ == old(self)@.ready(pid, x, y, order@),
            final(self)@.wf(),
    {
        let ghost g = old(self)@;
        let found = self.players.get(&pid);
        match found.unwrap().room {
            None => {
                self.deliver(pid, Response::Error(Error::NotJoinedRoom));
                Ghost(Seq::empty())
            },
            Some(r) => {
                proof {
                    assert(g.player_ok(pid));
                    lemma_readied_wf(g, pid, x, y);
                }
                let mut player = self.take_player(pid);
                player.ingame = Some(IngameProp { position: (x, y), stage: 0 });
                player.ready = true;
                self.put_player(pid, player);
                assert(self@.players =~= g.readied(pid, x, y).players);
                self.try_start(r)
            },
        }
    }

    /// Carries out `action` for player `player_id`; the action of a player
    /// who is not registered is dropped. The results are the values that
    /// chance decided: the id of a created room, the shuffled turn order of a
    /// started match, and the member listing of a lobby.
    fn dispatch(&mut self, player_id: u64, action: Action) -> (draws: (
        Ghost<u64>,
        Ghost<Seq<u64>>,
        Ghost<Seq<u64>>,
    ))
        requires
            old(self)@.wf(),
        ensures
            old(self)@.draws_fit(player_id, action, draws.0@, draws.1@, draws.2@),
            final(self)@ == old(self)@.act(player_id, action, draws.0@, draws.1@, draws.2@),
            final(self)@.wf(),
    {
        if !self.players.contains_key(&player_id) {
            return (Ghost(0), Ghost(Seq::empty()), Ghost(Seq::empty()));
        }
        match action {
            Action::CreateRoom { name } => {
                let fresh = self.create_room(player_id, name);
                (fresh, Ghost(Seq::empty()), Ghost(Seq::empty()))
            },
            Action::JoinRoom { id } => {
                let listing = self.join_room(player_id, id);
                (Ghost(0), Ghost(Seq::empty()), listing)
            },
            Action::Ready(x, y) => {
                let order = self.ready(player_id, x, y);
                (Ghost(0), order, Ghost(Seq::empty()))
            },
            Action::Game(a) => {
                self.perform_game_action(player_id, a);
                (Ghost(0), Ghost(Seq::empty()), Ghost(Seq::empty()))
            },
            Action::RequestData(ty) => {
                let listing = self.send_data(player_id, ty);
                (Ghost(0), Ghost(Seq::empty()), listing)
            },
        }
    }

    /// Applies the action `action` of player `player_id`.
    ///
    /// The action of a player who is not registered is dropped. Otherwise
    /// the engine moves to a state that [`GameState::act`] gives for values
    /// of chance that fit the action.
    pub fn perform_action(&mut self, player_id: u64, action: Action)
        requires
            old(self)@.wf(),
        ensures
            old(self)@.steps_to(player_id, action, final(self)@),
            final(self)@.wf(),
    {
        let draws = self.dispatch(player_id, action);
        assert(self@ == old(self)@.act(player_id, action, draws.0@, draws.1@, draws.2@));
    }

    /// Records that nobody drains the mailbox of `id` any more. The player
    /// stays registered until the next attempt to deliver a response.
    pub fn close_mailbox(&mut self, id: u64)
        requires
            old(self)@.wf(),
        ensures
            final(self)@ == old(self)@.closed(id),
            final(self)@.wf(),
    {
        if self.players.contains_key(&id) {
            let mut player = self.take_player(id);
            player.mailbox.close();
            self.put_player(id, player);
            proof {
                assert(self@.players =~= old(self)@.closed(id).players);
                assert(self@.players.dom() =~= old(self)@.players.dom());
                assert(old(self)@.same_but_open(self@));
                lemma_open_keeps_wf(old(self)@, self@);
            }
        }
    }

    /// Takes the messages waiting for `id` out of the mailbox, oldest first.
    /// A player who is not registered has none.
    pub fn take_outbox(&mut self, id: u64) -> (out: Vec<Response>)
        requires
            old(self)@.wf(),
        ensures
            out@.map_values(|r: Response| r@) == if old(self)@.players.contains_key(id) {
                old(self)@.players[id].mailbox.queue
            } else {
                Seq::empty()
            },
            final(self)@ == old(self)@.drained(id),
            final(self)@.wf(),
    {
        if self.players.contains_key(&id) {
            let mut player = self.take_player(id);
            let out = player.mailbox.drain();
            self.put_player(id, player);
            proof {
                assert(self@.players =~= old(self)@.drained(id).players);
                assert(self@.players.dom() =~= old(self)@.players.dom());
                assert(old(self)@.same_but_mail(self@));
                lemma_mail_keeps_wf(old(self)@, self@);
            }
            out
        } else {
            let out: Vec<Response> = Vec::new();
            assert(out@.map_values(|r: Response| r@) =~= Seq::empty());
            out
        }
    }

    /// A snapshot of all players and rooms. Nothing changes.
    pub fn export(&self) -> (e: GameExport)
        ensures
            e.shows(self@),
    {
        let mut players: HashMap<u64, PlayerExport> = HashMap::new();
        let ghost walk = self.players.iter().remaining();
        for entry in it: self.players.iter()
            invariant
                it.seq() == walk,
                walk == self.players.iter().remaining(),
                forall|k: u64| #[trigger]
                    players@.contains_key(k) ==> self.players@.contains_key(k) && players@[k].shows(
                        self.players@[k]@,
                    ),
                forall|j: int|
                    0 <= j < it.index() ==> players@.contains_key(*(#[trigger] walk[j]).0),
        {
            let (id, player) = entry;
            assert(self.players@.contains_key(*walk[it.index()].0));
            assert(self.players@[*walk[it.index()].0] == *walk[it.index()].1);
            players.insert(*id, player.export());
        }
        let mut rooms: HashMap<u64, RoomExport> = HashMap::new();
        let ghost stroll = self.rooms.iter().remaining();
        for entry in it: self.rooms.iter()
            invariant
                it.seq() == stroll,
                stroll == self.rooms.iter().remaining(),
                forall|k: u64| #[trigger]
                    rooms@.contains_key(k) ==> self.rooms@.contains_key(k) && rooms@[k].shows(
                        self.rooms@[k]@,
                    ),
                forall|j: int|
                    0 <= j < it.index() ==> rooms@.contains_key(*(#[trigger] stroll[j]).0),
        {
            let (id, room) = entry;
            assert(self.rooms@.contains_key(*stroll[it.index()].0));
            assert(self.rooms@[*stroll[it.index()].0] == *stroll[it.index()].1);
            rooms.insert(*id, room.export());
        }
        proof {
            assert forall|k: u64| self.players@.contains_key(k) implies players@.contains_key(
                k,
            ) by {
                assert(walk.contains((&k, &self.players@[k])));
                let j = choose|j: int| 0 <= j < walk.len() && walk[j] == (&k, &self.players@[k]);
                assert(players@.contains_key(*walk[j].0));
            }
            assert forall|k: u64| self.rooms@.contains_key(k) implies rooms@.contains_key(k) by {
                assert(stroll.contains((&k, &self.rooms@[k])));
                let j = choose|j: int| 0 <= j < stroll.len() && stroll[j] == (&k, &self.rooms@[k]);
                assert(rooms@.contains_key(*stroll[j].0));
            }
            assert(players@.dom() =~= self@.players.dom());
            assert(rooms@.dom() =~= self@.rooms.dom());
        }
        GameExport { players, rooms }
    }

    /// Applies one command to completion. A registration returns the id it
    /// assigned; the other commands return nothing.
    pub fn process(&mut self, command: In) -> (assigned: Option<u64>)
        requires
            old(self)@.wf(),
        ensures
            final(self)@.wf(),
            match command {
                In::NewPlayer(name) => assigned matches Some(id) && !old(self)@.players.contains_key(
                    id,
                ) && final(self)@ == old(self)@.registered(id, name@),
                In::PlayerAction { player, action } => assigned is None && old(self)@.steps_to(
                    player,
                    action,
                    final(self)@,
                ),
                In::Disconnected(id) => assigned is None && final(self)@ == old(self)@.evict(id),
            },
    {
        match command {
            In::NewPlayer(name) => Some(self.insert_player(name)),
            In::PlayerAction { player, action } => {
                self.perform_action(player, action);
                None
            },
            In::Disconnected(id) => {
                self.remove_player(id);
                None
            },
        }
    }
}

} // verus!
