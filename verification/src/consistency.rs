//! Every command keeps the engine consistent.

use crate::model::{
    GameState, lemma_announce_mail, lemma_broadcast_mail, lemma_deliver_wf, lemma_evict_wf,
    lemma_mail_chain, lemma_mail_keeps_wf, lemma_vacate_wf, lists,
};
use crate::player::IngameProp;
use crate::protocol::{Action, DataType, DataView, Error, EventView, GameAction, Message};
use crate::room::{RoomState, kill_result, lemma_filter_distinct, lemma_left_wf, rotate, spared};
use vstd::prelude::*;

verus! {

/// A request keeps the engine consistent.
pub proof fn lemma_request_wf(g: GameState, pid: u64, ty: DataType, listing: Seq<u64>)
    requires
        g.wf(),
    ensures
        g.request(pid, ty, listing).wf(),
{
    lemma_deliver_wf(g, pid, g.reply(pid, ty, listing));
}

/// Everything the invariant asks of `g` holds, except that `room` may be
/// without members.
pub open spec fn wf_but_empty(g: GameState, room: u64) -> bool {
    &&& forall|p: u64| #[trigger] g.players.contains_key(p) ==> g.player_ok(p)
    &&& forall|r: u64| #[trigger] g.rooms.contains_key(r) && r != room ==> g.room_ok(r)
    &&& g.rooms.contains_key(room)
    &&& g.rooms[room].wf()
    &&& g.rooms[room].order.len() > 0 ==> g.rooms[room].contested
    &&& forall|m: u64| #[trigger]
        g.rooms[room].members.contains(m) ==> g.players.contains_key(m) && g.players[m].room
            == Some(room)
    &&& forall|i: int|
        0 <= i < g.rooms[room].order.len() ==> g.in_game(#[trigger] g.rooms[room].order[i])
}

/// A player who is in no room, or in `room` already, can enter `room`.
pub proof fn lemma_enter_wf(g: GameState, pid: u64, room: u64)
    requires
        wf_but_empty(g, room),
        g.players.contains_key(pid),
        g.players[pid].room is None || g.players[pid].room == Some(room),
    ensures
        g.enter(pid, room).wf(),
{
    let h = g.enter(pid, room);
    assert forall|p: u64| #[trigger] h.players.contains_key(p) implies h.player_ok(p) by {
        assert(g.players.contains_key(p));
        assert(g.player_ok(p));
    }
    assert forall|r: u64| #[trigger] h.rooms.contains_key(r) implies h.room_ok(r) by {
        let before = g.rooms[r];
        let after = h.rooms[r];
        if r != room {
            assert(g.room_ok(r));
        }
        assert forall|m: u64| #[trigger] after.members.contains(m) implies h.players.contains_key(m)
            && h.players[m].room == Some(r) by {
            if m != pid {
                assert(before.members.contains(m));
            } else if r != room {
                assert(before.members.contains(m));
            }
        }
        assert forall|i: int| 0 <= i < after.order.len() implies h.in_game(
            #[trigger] after.order[i],
        ) by {
            assert(g.in_game(before.order[i]));
        }
        if r == room {
            assert forall|i: int| 0 <= i < after.order.len() implies after.members.contains(
                #[trigger] after.order[i],
            ) by {
                assert(before.members.contains(before.order[i]));
            }
        }
    }
}

/// Creating a room keeps the engine consistent.
pub proof fn lemma_create_room_wf(g: GameState, pid: u64, name: Seq<char>, room: u64)
    requires
        g.wf(),
        g.players.contains_key(pid),
        !g.rooms.contains_key(room),
    ensures
        g.create_room(pid, name, room).wf(),
{
    let v = g.vacate(pid);
    lemma_vacate_wf(g, pid);
    lemma_vacate_keeps_rooms(g, pid);
    let fresh = RoomState { name, order: Seq::empty(), members: Set::empty(), contested: false };
    let w = GameState { players: v.players, rooms: v.rooms.insert(room, fresh) };
    assert forall|p: u64| #[trigger] w.players.contains_key(p) implies w.player_ok(p) by {
        assert(v.player_ok(p));
    }
    assert forall|r: u64| #[trigger] w.rooms.contains_key(r) && r != room implies w.room_ok(r) by {
        assert(v.room_ok(r));
    }
    lemma_enter_wf(w, pid, room);
    let e = w.enter(pid, room);
    lemma_deliver_wf(e, pid, Message::RoomCreated(room));
    let d = e.deliver(pid, Message::RoomCreated(room));
    lemma_request_wf(d, pid, DataType::PlayersName, seq![pid]);
    lemma_request_wf(
        d.request(pid, DataType::PlayersName, seq![pid]),
        pid,
        DataType::PlayersOrder,
        seq![pid],
    );
}

/// Leaving a room creates no room.
pub proof fn lemma_vacate_keeps_rooms(g: GameState, pid: u64)
    ensures
        forall|r: u64| #[trigger] g.vacate(pid).rooms.contains_key(r) ==> g.rooms.contains_key(r),
{
}

/// Joining a room keeps the engine consistent.
pub proof fn lemma_admit_wf(g: GameState, pid: u64, room: u64)
    requires
        g.wf(),
        g.players.contains_key(pid),
        g.rooms.contains_key(room),
    ensures
        g.admit_to(pid, room).wf(),
{
    let v = if g.players[pid].room == Some(room) {
        g
    } else {
        g.vacate(pid)
    };
    lemma_vacate_wf(g, pid);
    assert(g.player_ok(pid));
    if g.players[pid].room != Some(room) {
        lemma_vacate_other_room(g, pid, room);
    }
    lemma_enter_wf(v, pid, room);
    let e = v.enter(pid, room);
    lemma_deliver_wf(e, pid, Message::RoomJoined(room));
    lemma_request_wf(
        e.deliver(pid, Message::RoomJoined(room)),
        pid,
        DataType::PlayersName,
        Seq::empty(),
    );
}

/// Leaving one room leaves every other room as it is.
pub proof fn lemma_vacate_other_room(g: GameState, pid: u64, room: u64)
    requires
        g.rooms.contains_key(room),
        g.players[pid].room != Some(room),
    ensures
        g.vacate(pid).rooms.contains_key(room),
        g.vacate(pid).rooms[room] == g.rooms[room],
{
}

/// Joining a room keeps the engine consistent.
pub proof fn lemma_join_room_wf(g: GameState, pid: u64, room: u64, listing: Seq<u64>)
    requires
        g.wf(),
        g.players.contains_key(pid),
    ensures
        g.join_room(pid, room, listing).wf(),
{
    if !g.rooms.contains_key(room) {
        lemma_deliver_wf(g, pid, Message::Error(Error::RoomNotFound));
    } else {
        lemma_admit_wf(g, pid, room);
        lemma_request_wf(g.admit_to(pid, room), pid, DataType::PlayersOrder, listing);
    }
}

/// Writing a player's in-game state keeps the engine consistent.
pub proof fn lemma_set_ingame_wf(g: GameState, pid: u64, prop: IngameProp)
    requires
        g.wf(),
        g.players.contains_key(pid),
    ensures
        g.set_ingame(pid, prop).wf(),
{
    let h = g.set_ingame(pid, prop);
    assert forall|p: u64| #[trigger] h.players.contains_key(p) implies h.player_ok(p) by {
        assert(g.players.contains_key(p));
        assert(g.player_ok(p));
    }
    assert forall|r: u64| #[trigger] h.rooms.contains_key(r) implies h.room_ok(r) by {
        assert(g.room_ok(r));
        let room = g.rooms[r];
        assert forall|m: u64| #[trigger] room.members.contains(m) implies h.players.contains_key(m)
            && h.players[m].room == Some(r) by {
            assert(g.players.contains_key(m));
        }
        assert forall|i: int| 0 <= i < room.order.len() implies h.in_game(
            #[trigger] room.order[i],
        ) by {
            assert(g.in_game(room.order[i]));
        }
    }
}

/// Declaring readiness keeps the engine consistent.
pub proof fn lemma_readied_wf(g: GameState, pid: u64, x: u8, y: u8)
    requires
        g.wf(),
        g.players.contains_key(pid),
    ensures
        g.readied(pid, x, y).wf(),
{
    let h = g.readied(pid, x, y);
    assert forall|p: u64| #[trigger] h.players.contains_key(p) implies h.player_ok(p) by {
        assert(g.players.contains_key(p));
        assert(g.player_ok(p));
    }
    assert forall|r: u64| #[trigger] h.rooms.contains_key(r) implies h.room_ok(r) by {
        assert(g.room_ok(r));
        let room = g.rooms[r];
        assert forall|m: u64| #[trigger] room.members.contains(m) implies h.players.contains_key(m)
            && h.players[m].room == Some(r) by {
            assert(g.players.contains_key(m));
        }
        assert forall|i: int| 0 <= i < room.order.len() implies h.in_game(
            #[trigger] room.order[i],
        ) by {
            assert(g.in_game(room.order[i]));
        }
    }
}

/// Delivering a message to several players keeps the engine consistent.
pub proof fn lemma_deliver_each_wf(g: GameState, ids: Seq<u64>, msg: Message)
    requires
        g.wf(),
    ensures
        g.deliver_each(ids, msg).wf(),
    decreases ids.len(),
{
    if ids.len() > 0 {
        lemma_deliver_each_wf(g, ids.drop_last(), msg);
        lemma_deliver_wf(g.deliver_each(ids.drop_last(), msg), ids.last(), msg);
    }
}

/// Synchronising a player keeps the engine consistent.
pub proof fn lemma_sync_wf(g: GameState, pid: u64)
    requires
        g.wf(),
    ensures
        g.sync(pid).wf(),
{
    lemma_request_wf(g, pid, DataType::Player, Seq::empty());
    let a = g.request(pid, DataType::Player, Seq::empty());
    lemma_request_wf(a, pid, DataType::PlayersOrder, Seq::empty());
    let b = a.request(pid, DataType::PlayersOrder, Seq::empty());
    lemma_request_wf(b, pid, DataType::PlayersName, Seq::empty());
}

/// Synchronising several players keeps the engine consistent.
pub proof fn lemma_sync_each_wf(g: GameState, ids: Seq<u64>)
    requires
        g.wf(),
    ensures
        g.sync_each(ids).wf(),
    decreases ids.len(),
{
    if ids.len() > 0 {
        lemma_sync_each_wf(g, ids.drop_last());
        lemma_sync_wf(g.sync_each(ids.drop_last()), ids.last());
    }
}

/// Telling the front of the turn order keeps the engine consistent.
pub proof fn lemma_announce_turn_wf(g: GameState, room: u64)
    requires
        g.wf(),
    ensures
        g.announce_turn(room).wf(),
{
    if g.rooms.contains_key(room) && g.rooms[room].order.len() > 0 {
        lemma_deliver_wf(g, g.rooms[room].order[0], Message::Event(EventView::TurnStart));
    }
}

/// A room that can start is consistent once it has taken a shuffle of its
/// members as turn order.
pub proof fn lemma_started_wf(g: GameState, room: u64, order: Seq<u64>)
    requires
        g.wf(),
        g.rooms.contains_key(room),
        g.can_start(room),
        g.order_fits(room, order),
    ensures
        (GameState {
            players: g.players,
            rooms: g.rooms.insert(room, g.rooms[room].started(order)),
        }).wf(),
{
    let h = GameState {
        players: g.players,
        rooms: g.rooms.insert(room, g.rooms[room].started(order)),
    };
    assert forall|p: u64| #[trigger] h.players.contains_key(p) implies h.player_ok(p) by {
        assert(g.player_ok(p));
    }
    assert forall|r: u64| #[trigger] h.rooms.contains_key(r) implies h.room_ok(r) by {
        assert(g.room_ok(r));
        if r == room {
            let after = h.rooms[r];
            assert forall|i: int| 0 <= i < after.order.len() implies after.members.contains(
                #[trigger] after.order[i],
            ) && h.in_game(after.order[i]) by {
                assert(order.to_set().contains(order[i]));
                assert(g.players.contains_key(order[i]));
                assert(g.player_ok(order[i]));
            }
        }
    }
}

/// An attempt to start a match keeps the engine consistent.
pub proof fn lemma_try_start_wf(g: GameState, room: u64, order: Seq<u64>)
    requires
        g.wf(),
        g.rooms.contains_key(room),
        g.order_fits(room, order),
    ensures
        g.try_start(room, order).wf(),
{
    if g.can_start(room) {
        lemma_started_wf(g, room, order);
        let a = GameState {
            players: g.players,
            rooms: g.rooms.insert(room, g.rooms[room].started(order)),
        };
        lemma_deliver_each_wf(a, order, Message::GameStarted);
        let b = a.deliver_each(order, Message::GameStarted);
        lemma_sync_each_wf(b, order);
        lemma_announce_turn_wf(b.sync_each(order), room);
    }
}

/// Declaring readiness keeps the engine consistent.
pub proof fn lemma_ready_wf(g: GameState, pid: u64, x: u8, y: u8, order: Seq<u64>)
    requires
        g.wf(),
        g.players.contains_key(pid),
        g.ready_order_fits(pid, x, y, order),
    ensures
        g.ready(pid, x, y, order).wf(),
{
    match g.players[pid].room {
        None => {
            lemma_deliver_wf(g, pid, Message::Error(Error::NotJoinedRoom));
        },
        Some(r) => {
            assert(g.player_ok(pid));
            lemma_readied_wf(g, pid, x, y);
            lemma_try_start_wf(g.readied(pid, x, y), r, order);
        },
    }
}

/// Announcing deaths changes nothing but mail.
pub proof fn lemma_mourn_mail(g: GameState, room: u64, dead: Seq<u64>)
    ensures
        g.same_but_mail(g.mourn(room, dead)),
    decreases dead.len(),
{
    if dead.len() > 0 {
        lemma_mourn_mail(g, room, dead.drop_last());
        let h = g.mourn(room, dead.drop_last());
        let msg = Message::Event(EventView::Die(g.players[dead.last()].name));
        lemma_broadcast_mail(h, room, msg);
        lemma_mail_chain(g, h, h.broadcast(room, msg));
    }
}

/// A batched kill keeps a room's invariant, leaves at least one player in
/// the turn order, and brings nobody into it.
pub proof fn lemma_struck_wf(room: RoomState, victims: Set<u64>)
    requires
        room.wf(),
        room.order.len() > 0,
    ensures
        room.struck(victims).wf(),
        room.struck(victims).order.len() > 0,
        forall|x: u64| #[trigger] room.struck(victims).order.contains(x) ==> room.order.contains(x),
{
    let behind = room.order.drop_first();
    let others = behind.filter(spared(victims));
    let after = kill_result(room.order, victims);
    assert(behind.no_duplicates());
    lemma_filter_distinct(behind, spared(victims));
    assert forall|x: u64| #[trigger] others.contains(x) implies room.order.contains(x) && x
        != room.order[0] by {
        assert(behind.contains(x));
        let k = choose|k: int| 0 <= k < behind.len() && behind[k] == x;
        assert(room.order[k + 1] == x);
    }
    assert forall|x: u64| #[trigger] after.contains(x) implies room.order.contains(x) by {
        let j = choose|j: int| 0 <= j < after.len() && after[j] == x;
        if after == others {
            assert(others.contains(x));
        } else if j == 0 {
            assert(room.order[0] == x);
        } else {
            assert(others[j - 1] == x);
            assert(others.contains(x));
        }
    }
    assert(after.no_duplicates()) by {
        if after != others {
            assert forall|i: int, j: int| 0 <= i < after.len() && 0 <= j < after.len() && i
                != j implies after[i] != after[j] by {
                if i > 0 {
                    assert(others.contains(others[i - 1]));
                }
                if j > 0 {
                    assert(others.contains(others[j - 1]));
                }
            }
        }
    }
    assert forall|i: int| 0 <= i < after.len() implies room.members.contains(
        #[trigger] after[i],
    ) by {
        assert(after.contains(after[i]));
        let k = choose|k: int| 0 <= k < room.order.len() && room.order[k] == after[i];
        assert(room.members.contains(room.order[k]));
    }
}

/// Rotation keeps a room's invariant and the players in the turn order.
pub proof fn lemma_rotated_wf(room: RoomState)
    requires
        room.wf(),
        room.order.len() > 0,
    ensures
        room.rotated().wf(),
        room.rotated().order.len() == room.order.len(),
        forall|x: u64| #[trigger] room.rotated().order.contains(x) <==> room.order.contains(x),
{
    let after = rotate(room.order);
    let n = room.order.len() as int;
    let source = |i: int| if i < n - 1 { i + 1 } else { 0 };
    assert forall|i: int| 0 <= i < n implies #[trigger] after[i] == room.order[source(i)] by {}
    assert forall|x: u64| #[trigger] after.contains(x) <==> room.order.contains(x) by {
        if after.contains(x) {
            let j = choose|j: int| 0 <= j < n && after[j] == x;
            assert(room.order[source(j)] == x);
        }
        if room.order.contains(x) {
            let k = choose|k: int| 0 <= k < n && room.order[k] == x;
            if k == 0 {
                assert(after[n - 1] == x);
            } else {
                assert(after[k - 1] == x);
            }
        }
    }
    assert forall|i: int, j: int| 0 <= i < n && 0 <= j < n && i != j implies after[i]
        != after[j] by {
        assert(after[i] == room.order[source(i)]);
        assert(after[j] == room.order[source(j)]);
    }
    assert forall|i: int| 0 <= i < n implies room.members.contains(#[trigger] after[i]) by {
        assert(after[i] == room.order[source(i)]);
    }
}

/// Replacing the turn order of a room by one that names only players who
/// were in it keeps the engine consistent.
pub proof fn lemma_reorder_wf(g: GameState, room: u64, after: RoomState)
    requires
        g.wf(),
        g.rooms.contains_key(room),
        after.wf(),
        after.members == g.rooms[room].members,
        after.contested == g.rooms[room].contested,
        forall|x: u64| #[trigger] after.order.contains(x) ==> g.rooms[room].order.contains(x),
    ensures
        (GameState { players: g.players, rooms: g.rooms.insert(room, after) }).wf(),
{
    let h = GameState { players: g.players, rooms: g.rooms.insert(room, after) };
    assert forall|p: u64| #[trigger] h.players.contains_key(p) implies h.player_ok(p) by {
        assert(g.player_ok(p));
    }
    assert forall|r: u64| #[trigger] h.rooms.contains_key(r) implies h.room_ok(r) by {
        assert(g.room_ok(r));
        if r == room {
            let before = g.rooms[room];
            assert forall|i: int| 0 <= i < after.order.len() implies h.in_game(
                #[trigger] after.order[i],
            ) by {
                assert(after.order.contains(after.order[i]));
                let k = choose|k: int| 0 <= k < before.order.len() && before.order[k]
                    == after.order[i];
                assert(g.in_game(before.order[k]));
            }
            if after.order.len() > 0 {
                assert(after.order.contains(after.order[0]));
                assert(before.order.len() > 0);
            }
        }
    }
}

/// An attack keeps the engine consistent.
pub proof fn lemma_attack_wf(g: GameState, pid: u64, room: u64, x: u8, y: u8)
    requires
        g.wf(),
        g.players.contains_key(pid),
        g.rooms.contains_key(room),
        g.rooms[room].order.len() > 0,
    ensures
        g.attack(pid, room, x, y).wf(),
{
    let prop = g.players[pid].ingame->0;
    let a = g.set_ingame(pid, IngameProp { stage: 2, ..prop });
    lemma_set_ingame_wf(g, pid, IngameProp { stage: 2, ..prop });
    let msg = Message::Event(EventView::Attack(x, y));
    let b = a.broadcast(room, msg);
    lemma_broadcast_mail(a, room, msg);
    let dead = g.victims(room, x, y);
    let c = b.mourn(room, dead);
    lemma_mourn_mail(b, room, dead);
    lemma_mail_chain(a, b, c);
    lemma_mail_keeps_wf(a, c);
    assert(c.room_ok(room));
    lemma_struck_wf(c.rooms[room], dead.to_set());
    let after = c.rooms[room].struck(dead.to_set());
    lemma_reorder_wf(c, room, after);
    let d = GameState { players: c.players, rooms: c.rooms.insert(room, after) };
    lemma_announce_mail(d, room);
    lemma_mail_keeps_wf(d, d.announce_winner(room));
}

/// Ending a turn keeps the engine consistent.
pub proof fn lemma_end_turn_wf(g: GameState, pid: u64, room: u64)
    requires
        g.wf(),
        g.players.contains_key(pid),
        g.rooms.contains_key(room),
        g.rooms[room].order.len() > 0,
    ensures
        g.end_turn(pid, room).wf(),
{
    let prop = g.players[pid].ingame->0;
    let a = g.set_ingame(pid, IngameProp { stage: 0, ..prop });
    lemma_set_ingame_wf(g, pid, IngameProp { stage: 0, ..prop });
    assert(a.room_ok(room));
    lemma_rotated_wf(a.rooms[room]);
    lemma_reorder_wf(a, room, a.rooms[room].rotated());
    let b = GameState { players: a.players, rooms: a.rooms.insert(room, a.rooms[room].rotated()) };
    let order = rotate(g.rooms[room].order);
    let msg = Message::Sync(DataView::PlayersOrder(order));
    lemma_broadcast_mail(b, room, msg);
    lemma_mail_keeps_wf(b, b.broadcast(room, msg));
    lemma_deliver_wf(b.broadcast(room, msg), order[0], Message::Event(EventView::TurnStart));
}

/// An in-game action of the current player keeps the engine consistent.
pub proof fn lemma_turn_wf(g: GameState, pid: u64, room: u64, action: GameAction)
    requires
        g.wf(),
        g.players.contains_key(pid),
        g.rooms.contains_key(room),
        g.rooms[room].order.len() > 0,
    ensures
        g.turn(pid, room, action).wf(),
{
    let prop = g.players[pid].ingame->0;
    lemma_deliver_wf(g, pid, Message::Error(Error::ActionOrderIncorrect));
    lemma_deliver_wf(g, pid, Message::Error(Error::IllegalParameter));
    match action {
        GameAction::Move(x, y) => {
            lemma_set_ingame_wf(g, pid, IngameProp { position: (x, y), stage: 1 });
        },
        GameAction::Attack(x, y) => {
            lemma_attack_wf(g, pid, room, x, y);
        },
        GameAction::Run(x, y) => {
            let a = g.set_ingame(pid, IngameProp { position: (x, y), stage: 1 });
            lemma_set_ingame_wf(g, pid, IngameProp { position: (x, y), stage: 1 });
            let msg = Message::Event(EventView::Run(prop.position.0, prop.position.1));
            lemma_broadcast_mail(a, room, msg);
            lemma_mail_keeps_wf(a, a.broadcast(room, msg));
        },
        GameAction::End => {
            lemma_end_turn_wf(g, pid, room);
        },
    }
}

/// An in-game action keeps the engine consistent.
pub proof fn lemma_game_action_wf(g: GameState, pid: u64, action: GameAction)
    requires
        g.wf(),
        g.players.contains_key(pid),
    ensures
        g.game_action(pid, action).wf(),
{
    lemma_deliver_wf(g, pid, Message::Error(Error::NotJoinedRoom));
    lemma_deliver_wf(g, pid, Message::Error(Error::RoomNotFound));
    lemma_deliver_wf(g, pid, Message::Error(Error::NotInGame));
    lemma_deliver_wf(g, pid, Message::Error(Error::NotYourTurn));
    match g.players[pid].room {
        None => {},
        Some(r) => {
            if g.rooms.contains_key(r) && g.rooms[r].order.len() > 0 && g.rooms[r].order[0] == pid {
                lemma_turn_wf(g, pid, r, action);
            }
        },
    }
}

/// Every action keeps the engine consistent, whatever chance decides.
pub proof fn lemma_act_wf(
    g: GameState,
    pid: u64,
    action: Action,
    fresh: u64,
    order: Seq<u64>,
    listing: Seq<u64>,
)
    requires
        g.wf(),
        g.draws_fit(pid, action, fresh, order, listing),
    ensures
        g.act(pid, action, fresh, order, listing).wf(),
{
    if g.players.contains_key(pid) {
        match action {
            Action::CreateRoom { name } => {
                lemma_create_room_wf(g, pid, name@, fresh);
            },
            Action::JoinRoom { id } => {
                lemma_join_room_wf(g, pid, id, listing);
            },
            Action::Ready(x, y) => {
                lemma_ready_wf(g, pid, x, y, order);
            },
            Action::Game(a) => {
                lemma_game_action_wf(g, pid, a);
            },
            Action::RequestData(ty) => {
                lemma_request_wf(g, pid, ty, listing);
            },
        }
    }
}


/// A reply that does not read the member listing is the same for every
/// listing.
pub proof fn lemma_listing_idle(
    g: GameState,
    pid: u64,
    ty: DataType,
    one: Seq<u64>,
    other: Seq<u64>,
)
    requires
        !g.listing_matters(pid, ty),
    ensures
        g.request(pid, ty, one) == g.request(pid, ty, other),
{
}

/// A set of one element has one listing.
pub proof fn lemma_single_listing(listing: Seq<u64>, x: u64)
    requires
        lists(listing, set![x]),
    ensures
        listing == seq![x],
{
    listing.unique_seq_to_set();
    assert(set![x].len() == 1);
    assert(listing.to_set().contains(listing[0]));
    assert(listing =~= seq![x]);
}

/// Send-or-evict keeps a started match together.
pub proof fn lemma_deliver_keeps_match(
    g: GameState,
    ids: Seq<u64>,
    room: u64,
    pid: u64,
    msg: Message,
)
    requires
        g.wf(),
        g.match_on(ids, room),
    ensures
        g.deliver(pid, msg).match_on(ids, room),
{
    let h = g.deliver(pid, msg);
    if g.players.contains_key(pid) && !g.players[pid].mailbox.open {
        lemma_evict_wf(g, pid);
        lemma_vacate_wf(g, pid);
        assert(g.player_ok(pid));
        match g.players[pid].room {
            None => {},
            Some(r) => {
                lemma_left_wf(g.rooms[r], pid);
                if h.rooms.contains_key(room) {
                    assert forall|m: u64| #[trigger]
                        h.rooms[room].members.contains(m) implies h.rooms[room].order.contains(
                        m,
                    ) by {
                        assert(g.rooms[room].members.contains(m));
                        assert(g.rooms[room].order.contains(m));
                    }
                }
            },
        }
        assert forall|j: int|
            0 <= j < ids.len() && h.players.contains_key(
                #[trigger] ids[j],
            ) implies h.players[ids[j]].room == Some(room) by {
            assert(g.players.contains_key(ids[j]));
        }
    }
}

/// Synchronising a player keeps a started match together.
pub proof fn lemma_sync_keeps_match(g: GameState, ids: Seq<u64>, room: u64, pid: u64)
    requires
        g.wf(),
        g.match_on(ids, room),
    ensures
        g.sync(pid).match_on(ids, room),
{
    let none = Seq::<u64>::empty();
    let a = g.request(pid, DataType::Player, none);
    lemma_request_wf(g, pid, DataType::Player, none);
    lemma_deliver_keeps_match(g, ids, room, pid, g.reply(pid, DataType::Player, none));
    let b = a.request(pid, DataType::PlayersOrder, none);
    lemma_request_wf(a, pid, DataType::PlayersOrder, none);
    lemma_deliver_keeps_match(a, ids, room, pid, a.reply(pid, DataType::PlayersOrder, none));
    lemma_deliver_keeps_match(b, ids, room, pid, b.reply(pid, DataType::PlayersName, none));
}

/// In a started match, a registered player of the match is in a room with a
/// turn order, so a reply to that player never reads the member listing.
pub proof fn lemma_match_settles(g: GameState, ids: Seq<u64>, room: u64, j: int, ty: DataType)
    requires
        g.wf(),
        g.match_on(ids, room),
        0 <= j < ids.len(),
    ensures
        !g.listing_matters(ids[j], ty),
{
    if g.players.contains_key(ids[j]) {
        assert(g.player_ok(ids[j]));
        assert(g.rooms[room].members.contains(ids[j]));
        assert(g.rooms[room].order.contains(ids[j]));
    }
}

} // verus!
