//! The mathematical model of the engine: the state of all players and rooms
//! as maps, and every command as a function from state to state.
//!
//! What a command does can depend on values that chance decides: a fresh room
//! id, the shuffled turn order of a starting match, and the order in which the
//! members of a lobby are listed. Those values are arguments here, so every
//! function in this file is deterministic.

use crate::player::{IngameProp, MailboxState, PlayerState};
use crate::protocol::{Action, DataType, DataView, Error, EventView, GameAction, Message};
use crate::room::{RoomState, lemma_left_wf, posted_to, rotate};
use crate::utils::manhattan;
use vstd::prelude::*;

verus! {

/// The view of the engine: every player and every room by id.
pub struct GameState {
    pub players: Map<u64, PlayerState>,
    pub rooms: Map<u64, RoomState>,
}

/// Putting a value back under a key that was just removed is an insertion.
pub broadcast proof fn lemma_reinsert<V>(m: Map<u64, V>, k: u64, v: V)
    ensures
        #[trigger] m.remove(k).insert(k, v) == m.insert(k, v),
{
    assert(m.remove(k).insert(k, v) =~= m.insert(k, v));
}

/// `listing` names each of `members` once.
pub open spec fn lists(listing: Seq<u64>, members: Set<u64>) -> bool {
    listing.no_duplicates() && listing.to_set() == members
}

impl GameState {
    /// The state with no players and no rooms.
    pub open spec fn empty() -> GameState {
        GameState { players: Map::empty(), rooms: Map::empty() }
    }

    /// Player `p` is registered and has in-game state.
    pub open spec fn in_game(self, p: u64) -> bool {
        self.players.contains_key(p) && self.players[p].ingame is Some
    }

    /// What must hold of a registered player: the record carries its own id,
    /// a ready player has in-game state, and a room reference names a room
    /// that exists and counts the player among its members.
    pub open spec fn player_ok(self, p: u64) -> bool {
        let player = self.players[p];
        &&& player.id == p
        &&& player.ready ==> player.ingame is Some
        &&& player.room matches Some(r) ==> self.rooms.contains_key(r)
            && self.rooms[r].members.contains(p)
    }

    /// What must hold of a room: its own invariant, at least one member, a
    /// turn order only after it has held several members, every member a
    /// registered player who refers back to the room, and everyone in the
    /// turn order with in-game state.
    pub open spec fn room_ok(self, r: u64) -> bool {
        let room = self.rooms[r];
        &&& room.wf()
        &&& room.members.len() > 0
        &&& room.order.len() > 0 ==> room.contested
        &&& forall|m: u64| #[trigger]
            room.members.contains(m) ==> self.players.contains_key(m) && self.players[m].room
                == Some(r)
        &&& forall|i: int| 0 <= i < room.order.len() ==> self.in_game(#[trigger] room.order[i])
    }

    /// The invariant of the engine: players and rooms refer to each other
    /// consistently.
    pub open spec fn wf(self) -> bool {
        &&& forall|p: u64| #[trigger] self.players.contains_key(p) ==> self.player_ok(p)
        &&& forall|r: u64| #[trigger] self.rooms.contains_key(r) ==> self.room_ok(r)
    }

    /// The state after a newly connected player has been registered.
    pub open spec fn registered(self, id: u64, name: Seq<char>) -> GameState {
        GameState {
            players: self.players.insert(
                id,
                PlayerState {
                    id,
                    name,
                    room: None,
                    ingame: None,
                    ready: false,
                    mailbox: MailboxState { queue: Seq::empty(), open: true },
                },
            ),
            rooms: self.rooms,
        }
    }

    /// The state after the transport has reported that nobody drains the
    /// mailbox of `pid` any more.
    pub open spec fn closed(self, pid: u64) -> GameState {
        if self.players.contains_key(pid) {
            let p = self.players[pid];
            GameState {
                players: self.players.insert(
                    pid,
                    PlayerState { mailbox: MailboxState { open: false, ..p.mailbox }, ..p },
                ),
                rooms: self.rooms,
            }
        } else {
            self
        }
    }

    /// The state after the mailbox of `pid` has been emptied.
    pub open spec fn drained(self, pid: u64) -> GameState {
        if self.players.contains_key(pid) {
            let p = self.players[pid];
            GameState {
                players: self.players.insert(
                    pid,
                    PlayerState { mailbox: MailboxState { queue: Seq::empty(), ..p.mailbox }, ..p },
                ),
                rooms: self.rooms,
            }
        } else {
            self
        }
    }

    /// The state after `msg` has been posted to every member of `room`.
    /// Members whose mailbox is closed miss it; nobody is evicted.
    pub open spec fn broadcast(self, room: u64, msg: Message) -> GameState {
        GameState {
            players: posted_to(self.players, self.rooms[room].members, msg),
            rooms: self.rooms,
        }
    }

    /// The state after win detection in `room`: if the room has a winner,
    /// every member is told the winner's name.
    pub open spec fn announce_winner(self, room: u64) -> GameState {
        match self.rooms[room].winner() {
            Some(w) => self.broadcast(room, Message::Event(EventView::GameEnd(self.players[w].name))),
            None => self,
        }
    }

    /// The state after player `pid` has left the room the player was in, if
    /// any. The room loses the player as a member and in the turn order. A
    /// room left empty is torn down; otherwise the remaining members are told
    /// of the departure, and of the winner if the departure leaves one.
    pub open spec fn vacate(self, pid: u64) -> GameState {
        let p = self.players[pid];
        match p.room {
            None => self,
            Some(r) => {
                let players = self.players.insert(pid, PlayerState { room: None, ..p });
                if !self.rooms.contains_key(r) {
                    GameState { players, rooms: self.rooms }
                } else {
                    let room = self.rooms[r].left(pid);
                    if room.members.len() == 0 {
                        GameState { players, rooms: self.rooms.remove(r) }
                    } else {
                        (GameState { players, rooms: self.rooms.insert(r, room) }).broadcast(
                            r,
                            Message::Event(EventView::Disconnected(p.name)),
                        ).announce_winner(r)
                    }
                }
            },
        }
    }

    /// The state after player `pid` has been removed: the player leaves the
    /// room as in [`Self::vacate`] and then the registry.
    pub open spec fn evict(self, pid: u64) -> GameState {
        if !self.players.contains_key(pid) {
            self
        } else {
            let g = self.vacate(pid);
            GameState { players: g.players.remove(pid), rooms: g.rooms }
        }
    }

    /// Send or evict: the state after an attempt to deliver `msg` to `pid`.
    /// An open mailbox takes the message; a player whose mailbox is closed is
    /// evicted. A player who is not registered is passed over.
    pub open spec fn deliver(self, pid: u64, msg: Message) -> GameState {
        if !self.players.contains_key(pid) {
            self
        } else if self.players[pid].mailbox.open {
            GameState {
                players: self.players.insert(pid, self.players[pid].post(msg)),
                rooms: self.rooms,
            }
        } else {
            self.evict(pid)
        }
    }

    /// The names of the members of `room` by id.
    pub open spec fn member_names(self, room: u64) -> Map<u64, Seq<char>> {
        Map::new(
            |id: u64| self.rooms[room].members.contains(id),
            |id: u64| self.players[id].name,
        )
    }

    /// The names of all rooms by id.
    pub open spec fn room_names(self) -> Map<u64, Seq<char>> {
        self.rooms.map_values(|r: RoomState| r.name)
    }

    /// `listing` can stand for the members of the room of `pid` in the reply
    /// to a request for `ty`: it matters only in the turn order of a room in
    /// the lobby, and then it names each member once.
    pub open spec fn listing_fits(self, pid: u64, ty: DataType, listing: Seq<u64>) -> bool {
        ty == DataType::PlayersOrder && self.players.contains_key(pid) ==> (
        self.players[pid].room matches Some(r) ==> self.rooms[r].order.len() == 0 ==> lists(
            listing,
            self.rooms[r].members,
        ))
    }

    /// The answer to a request of `pid` for the projection `ty`.
    ///
    /// A player without in-game state has no identity projection; a player
    /// outside any room has neither turn order nor member names. The turn
    /// order of a room in the lobby is `listing`, its members in no
    /// particular order.
    pub open spec fn reply(self, pid: u64, ty: DataType, listing: Seq<u64>) -> Message {
        let p = self.players[pid];
        match ty {
            DataType::Player => match p.ingame {
                Some(prop) => Message::Sync(
                    DataView::Player { name: p.name, id: p.id, position: prop.position },
                ),
                None => Message::Error(Error::NotInGame),
            },
            DataType::PlayersOrder => match p.room {
                Some(r) => Message::Sync(
                    DataView::PlayersOrder(
                        if self.rooms[r].order.len() == 0 {
                            listing
                        } else {
                            self.rooms[r].order
                        },
                    ),
                ),
                None => Message::Error(Error::NotJoinedRoom),
            },
            DataType::PlayersName => match p.room {
                Some(r) => Message::Sync(DataView::PlayersName(self.member_names(r))),
                None => Message::Error(Error::NotJoinedRoom),
            },
            DataType::RoomList => Message::Sync(DataView::RoomList(self.room_names())),
        }
    }

    /// The state after `pid` has asked for the projection `ty`: the reply is
    /// delivered to `pid`, send or evict.
    pub open spec fn request(self, pid: u64, ty: DataType, listing: Seq<u64>) -> GameState {
        if !self.players.contains_key(pid) {
            self
        } else {
            self.deliver(pid, self.reply(pid, ty, listing))
        }
    }

    /// The state in which `pid` refers to `room` and is one of its members.
    pub open spec fn enter(self, pid: u64, room: u64) -> GameState {
        GameState {
            players: self.players.insert(
                pid,
                PlayerState { room: Some(room), ..self.players[pid] },
            ),
            rooms: self.rooms.insert(room, self.rooms[room].joined(pid)),
        }
    }

    /// The state after `pid` has created a room called `name` under the
    /// unused id `room`: the player leaves any earlier room, becomes the new
    /// room's only member, and is sent the room id, the member names and the
    /// member list.
    pub open spec fn create_room(self, pid: u64, name: Seq<char>, room: u64) -> GameState {
        let g = self.vacate(pid);
        let fresh = RoomState { name, order: Seq::empty(), members: Set::empty(), contested: false };
        (GameState { players: g.players, rooms: g.rooms.insert(room, fresh) }).enter(
            pid,
            room,
        ).deliver(pid, Message::RoomCreated(room)).request(
            pid,
            DataType::PlayersName,
            seq![pid],
        ).request(pid, DataType::PlayersOrder, seq![pid])
    }

    /// The state after `pid` has joined the existing room `room` and has
    /// been sent the room id and the member names: the player leaves any
    /// other room first.
    pub open spec fn admit_to(self, pid: u64, room: u64) -> GameState {
        let g = if self.players[pid].room == Some(room) {
            self
        } else {
            self.vacate(pid)
        };
        g.enter(pid, room).deliver(pid, Message::RoomJoined(room)).request(
            pid,
            DataType::PlayersName,
            Seq::empty(),
        )
    }

    /// The state after `pid` has asked to join `room`. An unknown room is an
    /// error. Otherwise the player leaves any other room, becomes a member,
    /// and is sent the room id, the member names and the turn order.
    pub open spec fn join_room(self, pid: u64, room: u64, listing: Seq<u64>) -> GameState {
        if !self.rooms.contains_key(room) {
            self.deliver(pid, Message::Error(Error::RoomNotFound))
        } else {
            self.admit_to(pid, room).request(pid, DataType::PlayersOrder, listing)
        }
    }

    /// `listing` can stand for the members of `room` in the turn order sent
    /// to `pid` on joining.
    pub open spec fn join_listing_fits(self, pid: u64, room: u64, listing: Seq<u64>) -> bool {
        self.rooms.contains_key(room) ==> self.admit_to(pid, room).listing_fits(
            pid,
            DataType::PlayersOrder,
            listing,
        )
    }

    /// The state in which the in-game state of `pid` is `prop`.
    pub open spec fn set_ingame(self, pid: u64, prop: IngameProp) -> GameState {
        GameState {
            players: self.players.insert(
                pid,
                PlayerState { ingame: Some(prop), ..self.players[pid] },
            ),
            rooms: self.rooms,
        }
    }

    /// The state after `msg` has been delivered, send or evict, to each of
    /// `ids` in turn.
    pub open spec fn deliver_each(self, ids: Seq<u64>, msg: Message) -> GameState
        decreases ids.len(),
    {
        if ids.len() == 0 {
            self
        } else {
            self.deliver_each(ids.drop_last(), msg).deliver(ids.last(), msg)
        }
    }

    /// The state after `pid` has been sent identity, turn order and member
    /// names.
    pub open spec fn sync(self, pid: u64) -> GameState {
        self.request(pid, DataType::Player, Seq::empty()).request(
            pid,
            DataType::PlayersOrder,
            Seq::empty(),
        ).request(pid, DataType::PlayersName, Seq::empty())
    }

    /// The state after each of `ids` in turn has been synchronised.
    pub open spec fn sync_each(self, ids: Seq<u64>) -> GameState
        decreases ids.len(),
    {
        if ids.len() == 0 {
            self
        } else {
            self.sync_each(ids.drop_last()).sync(ids.last())
        }
    }

    /// The state after the player at the front of the turn order of `room`
    /// has been told that the turn starts. Nothing happens if the room is
    /// gone or has no turn order.
    pub open spec fn announce_turn(self, room: u64) -> GameState {
        if self.rooms.contains_key(room) && self.rooms[room].order.len() > 0 {
            self.deliver(self.rooms[room].order[0], Message::Event(EventView::TurnStart))
        } else {
            self
        }
    }

    /// A started match holds `room` together: every member of the room is
    /// in its turn order, and each of `ids` who is still registered is in
    /// the room.
    pub open spec fn match_on(self, ids: Seq<u64>, room: u64) -> bool {
        &&& self.rooms.contains_key(room) ==> forall|m: u64| #[trigger]
            self.rooms[room].members.contains(m) ==> self.rooms[room].order.contains(m)
        &&& forall|j: int|
            0 <= j < ids.len() && self.players.contains_key(#[trigger] ids[j])
                ==> self.players[ids[j]].room == Some(room)
    }

    /// The reply to a request of `pid` for `ty` reads the member listing.
    pub open spec fn listing_matters(self, pid: u64, ty: DataType) -> bool {
        &&& ty == DataType::PlayersOrder
        &&& self.players.contains_key(pid)
        &&& self.players[pid].room matches Some(r) && self.rooms[r].order.len() == 0
    }

    /// Every member of `room` is ready.
    pub open spec fn all_ready(self, room: u64) -> bool {
        forall|m: u64| #[trigger] self.rooms[room].members.contains(m) ==> self.players[m].ready
    }

    /// A match can start in `room`: the room is in the lobby, has at least
    /// two members, and all of them are ready.
    pub open spec fn can_start(self, room: u64) -> bool {
        &&& self.rooms[room].order.len() == 0
        &&& self.rooms[room].members.len() >= 2
        &&& self.all_ready(room)
    }

    /// The state after an attempt to start a match in `room` with the
    /// shuffled turn order `order`. If the match can start, the room takes
    /// the order, every member in that order is sent the start signal and
    /// then synchronised, and the front is told that the turn starts.
    /// Otherwise nothing happens.
    pub open spec fn try_start(self, room: u64, order: Seq<u64>) -> GameState {
        if !self.can_start(room) {
            self
        } else {
            (GameState {
                players: self.players,
                rooms: self.rooms.insert(room, self.rooms[room].started(order)),
            }).deliver_each(order, Message::GameStarted).sync_each(order).announce_turn(room)
        }
    }

    /// `order` can be the shuffled turn order of a match in `room`: if the
    /// match can start, it names each member once.
    pub open spec fn order_fits(self, room: u64, order: Seq<u64>) -> bool {
        self.can_start(room) ==> lists(order, self.rooms[room].members)
    }

    /// The state in which `pid` is ready at position `(x, y)` on a fresh
    /// turn.
    pub open spec fn readied(self, pid: u64, x: u8, y: u8) -> GameState {
        GameState {
            players: self.players.insert(
                pid,
                PlayerState {
                    ingame: Some(IngameProp { position: (x, y), stage: 0 }),
                    ready: true,
                    ..self.players[pid]
                },
            ),
            rooms: self.rooms,
        }
    }

    /// The state after `pid` has declared readiness at position `(x, y)`.
    /// Outside any room that is an error. Otherwise the player gets fresh
    /// in-game state and a start of the match is attempted.
    pub open spec fn ready(self, pid: u64, x: u8, y: u8, order: Seq<u64>) -> GameState {
        match self.players[pid].room {
            None => self.deliver(pid, Message::Error(Error::NotJoinedRoom)),
            Some(r) => self.readied(pid, x, y).try_start(r, order),
        }
    }

    /// `order` can be the shuffled turn order when `pid` declares readiness
    /// at `(x, y)`.
    pub open spec fn ready_order_fits(self, pid: u64, x: u8, y: u8, order: Seq<u64>) -> bool {
        self.players[pid].room matches Some(r) ==> self.readied(pid, x, y).order_fits(r, order)
    }

    /// The predicate "stands at `(x, y)`".
    pub open spec fn stands_at(self, x: u8, y: u8) -> spec_fn(u64) -> bool {
        |id: u64| self.players[id].ingame is Some && self.players[id].ingame->0.position == (x, y)
    }

    /// The players in the turn order of `room` who stand at `(x, y)`,
    /// starting just behind the current player and ending with the current
    /// player.
    pub open spec fn victims(self, room: u64, x: u8, y: u8) -> Seq<u64> {
        rotate(self.rooms[room].order).filter(self.stands_at(x, y))
    }

    /// The state after the members of `room` have been told, one death after
    /// the other, that each of `dead` has died.
    pub open spec fn mourn(self, room: u64, dead: Seq<u64>) -> GameState
        decreases dead.len(),
    {
        if dead.len() == 0 {
            self
        } else {
            self.mourn(room, dead.drop_last()).broadcast(
                room,
                Message::Event(EventView::Die(self.players[dead.last()].name)),
            )
        }
    }

    /// The state after the current player `pid` of `room` has attacked
    /// `(x, y)` within the rules: the attack is announced, everyone in the
    /// turn order standing there dies, the dead leave the turn order in one
    /// step, and a winner is announced if one remains.
    pub open spec fn attack(self, pid: u64, room: u64, x: u8, y: u8) -> GameState {
        let prop = self.players[pid].ingame->0;
        let g = self.set_ingame(pid, IngameProp { stage: 2, ..prop }).broadcast(
            room,
            Message::Event(EventView::Attack(x, y)),
        );
        let dead = self.victims(room, x, y);
        let h = g.mourn(room, dead);
        (GameState {
            players: h.players,
            rooms: h.rooms.insert(room, h.rooms[room].struck(dead.to_set())),
        }).announce_winner(room)
    }

    /// The state after the current player `pid` of `room` has ended the
    /// turn: the player's stage is cleared, the turn order rotates, the
    /// members are sent the new order, and the new front is told that the
    /// turn starts.
    pub open spec fn end_turn(self, pid: u64, room: u64) -> GameState {
        let prop = self.players[pid].ingame->0;
        let g = self.set_ingame(pid, IngameProp { stage: 0, ..prop });
        let order = rotate(self.rooms[room].order);
        (GameState { players: g.players, rooms: g.rooms.insert(room, g.rooms[room].rotated()) }).broadcast(
            room,
            Message::Sync(DataView::PlayersOrder(order)),
        ).deliver(order[0], Message::Event(EventView::TurnStart))
    }

    /// The state after the current player `pid` of `room` has issued the
    /// in-game action `action`.
    ///
    /// A move or a run is allowed at stage 0 only, an attack at stage 0 or 1;
    /// anything later is an ordering error. A move goes at most one step, an
    /// attack reaches at most one step, a run goes exactly two; anything else
    /// is a parameter error. An error changes nothing but the actor's mail.
    pub open spec fn turn(self, pid: u64, room: u64, action: GameAction) -> GameState {
        let prop = self.players[pid].ingame->0;
        match action {
            GameAction::Move(x, y) => if prop.stage > 0 {
                self.deliver(pid, Message::Error(Error::ActionOrderIncorrect))
            } else if manhattan((x, y), prop.position) > 1 {
                self.deliver(pid, Message::Error(Error::IllegalParameter))
            } else {
                self.set_ingame(pid, IngameProp { position: (x, y), stage: 1 })
            },
            GameAction::Attack(x, y) => if prop.stage > 1 {
                self.deliver(pid, Message::Error(Error::ActionOrderIncorrect))
            } else if manhattan((x, y), prop.position) > 1 {
                self.deliver(pid, Message::Error(Error::IllegalParameter))
            } else {
                self.attack(pid, room, x, y)
            },
            GameAction::Run(x, y) => if prop.stage > 0 {
                self.deliver(pid, Message::Error(Error::ActionOrderIncorrect))
            } else if manhattan((x, y), prop.position) != 2 {
                self.deliver(pid, Message::Error(Error::IllegalParameter))
            } else {
                self.set_ingame(pid, IngameProp { position: (x, y), stage: 1 }).broadcast(
                    room,
                    Message::Event(EventView::Run(prop.position.0, prop.position.1)),
                )
            },
            GameAction::End => self.end_turn(pid, room),
        }
    }

    /// The state after `pid` has issued the in-game action `action`. A
    /// player outside any room, in a room without a running turn order, or
    /// not at the front of the order gets an error; the current player's
    /// action is carried out as in [`Self::turn`].
    pub open spec fn game_action(self, pid: u64, action: GameAction) -> GameState {
        match self.players[pid].room {
            None => self.deliver(pid, Message::Error(Error::NotJoinedRoom)),
            Some(r) => if !self.rooms.contains_key(r) {
                self.deliver(pid, Message::Error(Error::RoomNotFound))
            } else if self.rooms[r].order.len() == 0 {
                self.deliver(pid, Message::Error(Error::NotInGame))
            } else if self.rooms[r].order[0] != pid {
                self.deliver(pid, Message::Error(Error::NotYourTurn))
            } else {
                self.turn(pid, r, action)
            },
        }
    }

    /// The values that chance decides fit the command of the registered
    /// player `pid`: `fresh` is an unused room id where a room is created,
    /// `order` a shuffle of the members where a match starts, `listing` a
    /// list of the members where the members of a lobby are listed.
    pub open spec fn draws_fit(
        self,
        pid: u64,
        action: Action,
        fresh: u64,
        order: Seq<u64>,
        listing: Seq<u64>,
    ) -> bool {
        self.players.contains_key(pid) ==> match action {
            Action::CreateRoom { name } => !self.rooms.contains_key(fresh),
            Action::JoinRoom { id } => self.join_listing_fits(pid, id, listing),
            Action::Ready(x, y) => self.ready_order_fits(pid, x, y, order),
            Action::Game(a) => true,
            Action::RequestData(ty) => self.listing_fits(pid, ty, listing),
        }
    }

    /// `next` is a state that the action `action` of player `pid` can lead
    /// to: the result of [`Self::act`] for some values of chance that fit.
    pub open spec fn steps_to(self, pid: u64, action: Action, next: GameState) -> bool {
        exists|fresh: u64, order: Seq<u64>, listing: Seq<u64>|
            self.draws_fit(pid, action, fresh, order, listing) && next == #[trigger] self.act(
                pid,
                action,
                fresh,
                order,
                listing,
            )
    }

    /// The state after player `pid` has issued `action`. The action of a
    /// player who is not registered is dropped.
    pub open spec fn act(
        self,
        pid: u64,
        action: Action,
        fresh: u64,
        order: Seq<u64>,
        listing: Seq<u64>,
    ) -> GameState {
        if !self.players.contains_key(pid) {
            self
        } else {
            match action {
                Action::CreateRoom { name } => self.create_room(pid, name@, fresh),
                Action::JoinRoom { id } => self.join_room(pid, id, listing),
                Action::Ready(x, y) => self.ready(pid, x, y, order),
                Action::Game(a) => self.game_action(pid, a),
                Action::RequestData(ty) => self.request(pid, ty, listing),
            }
        }
    }

    /// `other` differs from `self` at most in which mailboxes are open.
    pub open spec fn same_but_open(self, other: GameState) -> bool {
        &&& self.rooms == other.rooms
        &&& self.players.dom() == other.players.dom()
        &&& forall|p: u64| #[trigger]
            self.players.contains_key(p) ==> other.players[p] == (PlayerState {
                mailbox: MailboxState {
                    open: other.players[p].mailbox.open,
                    ..self.players[p].mailbox
                },
                ..self.players[p]
            })
    }

    /// `other` differs from `self` at most in what waits in the mailboxes.
    pub open spec fn same_but_mail(self, other: GameState) -> bool {
        &&& self.rooms == other.rooms
        &&& self.players.dom() == other.players.dom()
        &&& forall|p: u64| #[trigger]
            self.players.contains_key(p) ==> other.players[p] == (PlayerState {
                mailbox: MailboxState {
                    queue: other.players[p].mailbox.queue,
                    ..self.players[p].mailbox
                },
                ..self.players[p]
            })
    }
}

/// A state that differs from a consistent one only in which mailboxes are
/// open is consistent.
pub proof fn lemma_open_keeps_wf(g: GameState, h: GameState)
    requires
        g.wf(),
        g.same_but_open(h),
    ensures
        h.wf(),
{
    assert forall|p: u64| #[trigger] h.players.contains_key(p) implies h.player_ok(p) by {
        assert(g.players.contains_key(p));
        assert(g.player_ok(p));
    }
    assert forall|r: u64| #[trigger] h.rooms.contains_key(r) implies h.room_ok(r) by {
        assert(g.room_ok(r));
        let room = g.rooms[r];
        assert forall|m: u64| #[trigger] room.members.contains(m) implies h.players.contains_key(m)
            && h.players[m].room == Some(r) by {
            assert(g.players.contains_key(m));
        }
        assert forall|i: int| 0 <= i < room.order.len() implies h.in_game(
            #[trigger] room.order[i],
        ) by {
            assert(g.in_game(room.order[i]));
        }
    }
}

/// A state that differs from a consistent one only in its mail is consistent.
pub proof fn lemma_mail_keeps_wf(g: GameState, h: GameState)
    requires
        g.wf(),
        g.same_but_mail(h),
    ensures
        h.wf(),
{
    assert forall|p: u64| #[trigger] h.players.contains_key(p) implies h.player_ok(p) by {
        assert(g.players.contains_key(p));
        assert(g.player_ok(p));
    }
    assert forall|r: u64| #[trigger] h.rooms.contains_key(r) implies h.room_ok(r) by {
        assert(g.room_ok(r));
        let room = g.rooms[r];
        assert forall|m: u64| #[trigger] room.members.contains(m) implies h.players.contains_key(m)
            && h.players[m].room == Some(r) by {
            assert(g.players.contains_key(m));
        }
        assert forall|i: int| 0 <= i < room.order.len() implies h.in_game(
            #[trigger] room.order[i],
        ) by {
            assert(g.in_game(room.order[i]));
        }
    }
}

/// A broadcast changes nothing but mail.
pub proof fn lemma_broadcast_mail(g: GameState, room: u64, msg: Message)
    ensures
        g.same_but_mail(g.broadcast(room, msg)),
{
    assert(g.players.dom() =~= g.broadcast(room, msg).players.dom());
}

/// Win detection changes nothing but mail.
pub proof fn lemma_announce_mail(g: GameState, room: u64)
    ensures
        g.same_but_mail(g.announce_winner(room)),
{
    match g.rooms[room].winner() {
        Some(w) => {
            lemma_broadcast_mail(g, room, Message::Event(EventView::GameEnd(g.players[w].name)));
        },
        None => {},
    }
}

/// Differing only in mail is transitive.
pub proof fn lemma_mail_chain(a: GameState, b: GameState, c: GameState)
    requires
        a.same_but_mail(b),
        b.same_but_mail(c),
    ensures
        a.same_but_mail(c),
{
    assert forall|p: u64| #[trigger] a.players.contains_key(p) implies c.players[p] == (PlayerState {
        mailbox: MailboxState { queue: c.players[p].mailbox.queue, ..a.players[p].mailbox },
        ..a.players[p]
    }) by {
        assert(b.players.contains_key(p));
    }
}


/// Leaving a room keeps the engine consistent. Nobody but the leaver changes
/// rooms, and no player is added or removed.
pub proof fn lemma_vacate_wf(g: GameState, pid: u64)
    requires
        g.wf(),
        g.players.contains_key(pid),
    ensures
        g.vacate(pid).wf(),
        g.vacate(pid).players.dom() == g.players.dom(),
        g.vacate(pid).players[pid].room is None,
{
    let p = g.players[pid];
    assert(g.player_ok(pid));
    match p.room {
        None => {},
        Some(r) => {
            assert(g.room_ok(r));
            let players = g.players.insert(pid, PlayerState { room: None, ..p });
            assert(players.dom() =~= g.players.dom());
            let room = g.rooms[r].left(pid);
            lemma_left_wf(g.rooms[r], pid);
            let h = if room.members.len() == 0 {
                GameState { players, rooms: g.rooms.remove(r) }
            } else {
                GameState { players, rooms: g.rooms.insert(r, room) }
            };
            assert forall|q: u64| #[trigger] h.players.contains_key(q) implies h.player_ok(q) by {
                assert(g.player_ok(q));
                if q != pid && g.players[q].room == Some(r) {
                    assert(room.members.contains(q));
                    assert(room.members.len() > 0);
                }
            }
            assert forall|s: u64| #[trigger] h.rooms.contains_key(s) implies h.room_ok(s) by {
                assert(g.room_ok(s));
                let before = g.rooms[s];
                let after = h.rooms[s];
                assert forall|m: u64| #[trigger] after.members.contains(m) implies h.players.contains_key(
                    m,
                ) && h.players[m].room == Some(s) by {
                    assert(before.members.contains(m));
                }
                assert forall|i: int| 0 <= i < after.order.len() implies h.in_game(
                    #[trigger] after.order[i],
                ) by {
                    let x = after.order[i];
                    assert(after.order.contains(x));
                    assert(before.order.contains(x));
                    let k = choose|k: int| 0 <= k < before.order.len() && before.order[k] == x;
                    assert(g.in_game(before.order[k]));
                    assert(before.members.contains(before.order[k]));
                    assert(x != pid);
                }
            }
            assert(h.wf());
            if room.members.len() != 0 {
                let msg = Message::Event(EventView::Disconnected(p.name));
                let h1 = h.broadcast(r, msg);
                lemma_broadcast_mail(h, r, msg);
                lemma_announce_mail(h1, r);
                lemma_mail_chain(h, h1, h1.announce_winner(r));
                lemma_mail_keeps_wf(h, h1.announce_winner(r));
            }
        },
    }
}

/// Removing a player keeps the engine consistent.
pub proof fn lemma_evict_wf(g: GameState, pid: u64)
    requires
        g.wf(),
    ensures
        g.evict(pid).wf(),
        !g.evict(pid).players.contains_key(pid),
        forall|q: u64| q != pid ==> (#[trigger] g.evict(pid).players.contains_key(q)
            <==> g.players.contains_key(q)),
{
    if g.players.contains_key(pid) {
        let v = g.vacate(pid);
        lemma_vacate_wf(g, pid);
        let h = g.evict(pid);
        assert forall|q: u64| #[trigger] h.players.contains_key(q) implies h.player_ok(q) by {
            assert(v.players.contains_key(q));
            assert(v.player_ok(q));
        }
        assert forall|s: u64| #[trigger] h.rooms.contains_key(s) implies h.room_ok(s) by {
            assert(v.room_ok(s));
            let room = v.rooms[s];
            assert forall|m: u64| #[trigger] room.members.contains(m) implies h.players.contains_key(
                m,
            ) && h.players[m].room == Some(s) by {
                assert(v.players[m].room == Some(s));
            }
            assert forall|i: int| 0 <= i < room.order.len() implies h.in_game(
                #[trigger] room.order[i],
            ) by {
                assert(v.in_game(room.order[i]));
                assert(room.members.contains(room.order[i]));
            }
        }
        assert forall|q: u64| q != pid implies (#[trigger] h.players.contains_key(q)
            <==> g.players.contains_key(q)) by {
            assert(v.players.dom().contains(q) <==> g.players.dom().contains(q));
        }
    }
}

/// Send-or-evict keeps the engine consistent.
pub proof fn lemma_deliver_wf(g: GameState, pid: u64, msg: Message)
    requires
        g.wf(),
    ensures
        g.deliver(pid, msg).wf(),
{
    if g.players.contains_key(pid) {
        if g.players[pid].mailbox.open {
            let h = g.deliver(pid, msg);
            assert(h.players.dom() =~= g.players.dom());
            assert(g.same_but_mail(h));
            lemma_mail_keeps_wf(g, h);
        } else {
            lemma_evict_wf(g, pid);
        }
    }
}

} // verus!
