//! What holds of the engine in general, stated over the model and proved.

use crate::consistency::{lemma_act_wf, lemma_struck_wf};
use crate::model::{GameState, lemma_broadcast_mail, lemma_evict_wf, lemma_mail_chain, lists};
use crate::player::{IngameProp, PlayerState};
use crate::protocol::{Action, DataType, Error, EventView, GameAction, Message};
use crate::room::{RoomState, kill_result, lemma_filter_distinct, lemma_left_wf, rotate, spared};
use crate::utils::manhattan;
use vstd::prelude::*;

verus! {

/// Registering a player keeps the engine consistent.
pub proof fn law_registered_consistent(g: GameState, id: u64, name: Seq<char>)
    requires
        g.wf(),
        !g.players.contains_key(id),
    ensures
        g.registered(id, name).wf(),
{
    let h = g.registered(id, name);
    assert forall|p: u64| #[trigger] h.players.contains_key(p) implies h.player_ok(p) by {
        if p != id {
            assert(g.player_ok(p));
        }
    }
    assert forall|r: u64| #[trigger] h.rooms.contains_key(r) implies h.room_ok(r) by {
        assert(g.room_ok(r));
        let room = g.rooms[r];
        assert forall|i: int| 0 <= i < room.order.len() implies h.in_game(
            #[trigger] room.order[i],
        ) by {
            assert(g.in_game(room.order[i]));
        }
    }
}

/// Identifiers are unique: two registrations, one after the other, each
/// under an id that is free when it is assigned, assign different ids, and
/// the second leaves the first player's record as it was.
pub proof fn law_ids_distinct(
    g: GameState,
    first: u64,
    first_name: Seq<char>,
    second: u64,
    second_name: Seq<char>,
)
    requires
        !g.players.contains_key(first),
        !g.registered(first, first_name).players.contains_key(second),
    ensures
        first != second,
        g.registered(first, first_name).registered(second, second_name).players[first]
            == g.registered(first, first_name).players[first],
        g.registered(first, first_name).registered(second, second_name).players[first].id == first,
        g.registered(first, first_name).registered(second, second_name).players[second].id
            == second,
{
}

/// Referential consistency: in a consistent engine a player who refers to a
/// room is a member of that room, and every member of a room, and every
/// player in its turn order, is registered and refers to that room.
pub proof fn law_references_agree(g: GameState, p: u64, r: u64)
    requires
        g.wf(),
    ensures
        g.players.contains_key(p) && g.players[p].room == Some(r) ==> g.rooms.contains_key(r)
            && g.rooms[r].members.contains(p),
        g.rooms.contains_key(r) && g.rooms[r].members.contains(p) ==> g.players.contains_key(p)
            && g.players[p].room == Some(r),
        g.rooms.contains_key(r) && g.rooms[r].order.contains(p) ==> g.players.contains_key(p)
            && g.players[p].room == Some(r) && g.rooms[r].members.contains(p),
        g.players.contains_key(p) ==> g.players[p].id == p,
{
    if g.players.contains_key(p) {
        assert(g.player_ok(p));
    }
    if g.rooms.contains_key(r) {
        assert(g.room_ok(r));
        if g.rooms[r].order.contains(p) {
            let i = choose|i: int| 0 <= i < g.rooms[r].order.len() && g.rooms[r].order[i] == p;
            assert(g.rooms[r].members.contains(g.rooms[r].order[i]));
        }
    }
}

/// Every command keeps the engine consistent: an action, whatever chance
/// decides, and a disconnect.
pub proof fn law_commands_keep_consistency(
    g: GameState,
    pid: u64,
    action: Action,
    fresh: u64,
    order: Seq<u64>,
    listing: Seq<u64>,
)
    requires
        g.wf(),
        g.draws_fit(pid, action, fresh, order, listing),
    ensures
        g.act(pid, action, fresh, order, listing).wf(),
        g.evict(pid).wf(),
{
    lemma_act_wf(g, pid, action, fresh, order, listing);
    lemma_evict_wf(g, pid);
}

/// `next` has no player that `self` lacks, and every player of `next` has
/// the id and the name the player has in `g`.
pub open spec fn keeps_identity(g: GameState, next: GameState) -> bool {
    forall|p: u64| #[trigger]
        next.players.contains_key(p) ==> g.players.contains_key(p) && next.players[p].id
            == g.players[p].id && next.players[p].name == g.players[p].name
}

/// Differing only in mail keeps identities.
proof fn lemma_mail_keeps_identity(g: GameState, h: GameState)
    requires
        g.same_but_mail(h),
    ensures
        keeps_identity(g, h),
{
    assert forall|p: u64| #[trigger] h.players.contains_key(p) implies g.players.contains_key(p)
        && h.players[p].id == g.players[p].id && h.players[p].name == g.players[p].name by {
        assert(g.players.dom().contains(p));
    }
}

/// Keeping identities is transitive.
proof fn lemma_identity_chain(a: GameState, b: GameState, c: GameState)
    requires
        keeps_identity(a, b),
        keeps_identity(b, c),
    ensures
        keeps_identity(a, c),
{
    assert forall|p: u64| #[trigger] c.players.contains_key(p) implies a.players.contains_key(p)
        && c.players[p].id == a.players[p].id && c.players[p].name == a.players[p].name by {
        assert(b.players.contains_key(p));
    }
}

/// Leaving a room keeps identities.
proof fn lemma_vacate_keeps_identity(g: GameState, pid: u64)
    requires
        g.players.contains_key(pid),
    ensures
        keeps_identity(g, g.vacate(pid)),
{
    let p = g.players[pid];
    match p.room {
        None => {},
        Some(r) => {
            let players = g.players.insert(pid, PlayerState { room: None, ..p });
            if g.rooms.contains_key(r) && g.rooms[r].left(pid).members.len() != 0 {
                let h = GameState { players, rooms: g.rooms.insert(r, g.rooms[r].left(pid)) };
                let msg = Message::Event(EventView::Disconnected(p.name));
                let h1 = h.broadcast(r, msg);
                lemma_broadcast_mail(h, r, msg);
                crate::model::lemma_announce_mail(h1, r);
                lemma_mail_chain(h, h1, h1.announce_winner(r));
                lemma_mail_keeps_identity(h, h1.announce_winner(r));
                assert(keeps_identity(g, h));
                lemma_identity_chain(g, h, h1.announce_winner(r));
            }
        },
    }
}

/// Send-or-evict keeps identities.
proof fn lemma_deliver_keeps_identity(g: GameState, pid: u64, msg: Message)
    ensures
        keeps_identity(g, g.deliver(pid, msg)),
        keeps_identity(g, g.evict(pid)),
{
    if g.players.contains_key(pid) {
        lemma_vacate_keeps_identity(g, pid);
        let v = g.vacate(pid);
        assert(keeps_identity(v, g.evict(pid)));
        lemma_identity_chain(g, v, g.evict(pid));
    }
}

/// Delivering to several players keeps identities.
proof fn lemma_deliver_each_keeps_identity(g: GameState, ids: Seq<u64>, msg: Message)
    ensures
        keeps_identity(g, g.deliver_each(ids, msg)),
    decreases ids.len(),
{
    if ids.len() > 0 {
        let h = g.deliver_each(ids.drop_last(), msg);
        lemma_deliver_each_keeps_identity(g, ids.drop_last(), msg);
        lemma_deliver_keeps_identity(h, ids.last(), msg);
        lemma_identity_chain(g, h, h.deliver(ids.last(), msg));
    }
}

/// A request keeps identities.
proof fn lemma_request_keeps_identity(g: GameState, pid: u64, ty: DataType, listing: Seq<u64>)
    ensures
        keeps_identity(g, g.request(pid, ty, listing)),
{
    lemma_deliver_keeps_identity(g, pid, g.reply(pid, ty, listing));
}

/// Synchronising a player keeps identities.
proof fn lemma_sync_keeps_identity(g: GameState, pid: u64)
    ensures
        keeps_identity(g, g.sync(pid)),
{
    let none = Seq::<u64>::empty();
    let a = g.request(pid, DataType::Player, none);
    let b = a.request(pid, DataType::PlayersOrder, none);
    lemma_request_keeps_identity(g, pid, DataType::Player, none);
    lemma_request_keeps_identity(a, pid, DataType::PlayersOrder, none);
    lemma_request_keeps_identity(b, pid, DataType::PlayersName, none);
    lemma_identity_chain(g, a, b);
    lemma_identity_chain(g, b, g.sync(pid));
}

/// Synchronising several players keeps identities.
proof fn lemma_sync_each_keeps_identity(g: GameState, ids: Seq<u64>)
    ensures
        keeps_identity(g, g.sync_each(ids)),
    decreases ids.len(),
{
    if ids.len() > 0 {
        let h = g.sync_each(ids.drop_last());
        lemma_sync_each_keeps_identity(g, ids.drop_last());
        lemma_sync_keeps_identity(h, ids.last());
        lemma_identity_chain(g, h, h.sync(ids.last()));
    }
}

/// An attempt to start a match keeps identities.
proof fn lemma_try_start_keeps_identity(g: GameState, room: u64, order: Seq<u64>)
    ensures
        keeps_identity(g, g.try_start(room, order)),
{
    if g.can_start(room) {
        let a = GameState {
            players: g.players,
            rooms: g.rooms.insert(room, g.rooms[room].started(order)),
        };
        let b = a.deliver_each(order, Message::GameStarted);
        let c = b.sync_each(order);
        lemma_deliver_each_keeps_identity(a, order, Message::GameStarted);
        lemma_sync_each_keeps_identity(b, order);
        lemma_identity_chain(a, b, c);
        if c.rooms.contains_key(room) && c.rooms[room].order.len() > 0 {
            lemma_deliver_keeps_identity(
                c,
                c.rooms[room].order[0],
                Message::Event(EventView::TurnStart),
            );
        }
        lemma_identity_chain(a, c, c.announce_turn(room));
    }
}

/// Announcing deaths keeps identities.
proof fn lemma_mourn_keeps_identity(g: GameState, room: u64, dead: Seq<u64>)
    ensures
        keeps_identity(g, g.mourn(room, dead)),
{
    crate::consistency::lemma_mourn_mail(g, room, dead);
    lemma_mail_keeps_identity(g, g.mourn(room, dead));
}

/// An in-game action keeps identities.
proof fn lemma_game_action_keeps_identity(g: GameState, pid: u64, action: GameAction)
    requires
        g.players.contains_key(pid),
    ensures
        keeps_identity(g, g.game_action(pid, action)),
{
    lemma_deliver_keeps_identity(g, pid, Message::Error(Error::NotJoinedRoom));
    lemma_deliver_keeps_identity(g, pid, Message::Error(Error::RoomNotFound));
    lemma_deliver_keeps_identity(g, pid, Message::Error(Error::NotInGame));
    lemma_deliver_keeps_identity(g, pid, Message::Error(Error::NotYourTurn));
    lemma_deliver_keeps_identity(g, pid, Message::Error(Error::ActionOrderIncorrect));
    lemma_deliver_keeps_identity(g, pid, Message::Error(Error::IllegalParameter));
    match g.players[pid].room {
        None => {},
        Some(r) => {
            if g.rooms.contains_key(r) && g.rooms[r].order.len() > 0 && g.rooms[r].order[0] == pid {
                let prop = g.players[pid].ingame->0;
                match action {
                    GameAction::Move(x, y) => {},
                    GameAction::Attack(x, y) => {
                        let a = g.set_ingame(pid, IngameProp { stage: 2, ..prop });
                        let msg = Message::Event(EventView::Attack(x, y));
                        let b = a.broadcast(r, msg);
                        lemma_broadcast_mail(a, r, msg);
                        lemma_mail_keeps_identity(a, b);
                        let dead = g.victims(r, x, y);
                        let c = b.mourn(r, dead);
                        lemma_mourn_keeps_identity(b, r, dead);
                        let d = GameState {
                            players: c.players,
                            rooms: c.rooms.insert(r, c.rooms[r].struck(dead.to_set())),
                        };
                        crate::model::lemma_announce_mail(d, r);
                        lemma_mail_keeps_identity(d, d.announce_winner(r));
                        assert(keeps_identity(g, a));
                        lemma_identity_chain(g, a, b);
                        lemma_identity_chain(g, b, c);
                        assert(keeps_identity(c, d));
                        lemma_identity_chain(g, c, d);
                        lemma_identity_chain(g, d, d.announce_winner(r));
                    },
                    GameAction::Run(x, y) => {
                        let a = g.set_ingame(pid, IngameProp { position: (x, y), stage: 1 });
                        let msg = Message::Event(EventView::Run(prop.position.0, prop.position.1));
                        lemma_broadcast_mail(a, r, msg);
                        lemma_mail_keeps_identity(a, a.broadcast(r, msg));
                        assert(keeps_identity(g, a));
                        lemma_identity_chain(g, a, a.broadcast(r, msg));
                    },
                    GameAction::End => {
                        let a = g.set_ingame(pid, IngameProp { stage: 0, ..prop });
                        let b = GameState {
                            players: a.players,
                            rooms: a.rooms.insert(r, a.rooms[r].rotated()),
                        };
                        let order = rotate(g.rooms[r].order);
                        let msg = Message::Sync(crate::protocol::DataView::PlayersOrder(order));
                        let c = b.broadcast(r, msg);
                        lemma_broadcast_mail(b, r, msg);
                        lemma_mail_keeps_identity(b, c);
                        lemma_deliver_keeps_identity(
                            c,
                            order[0],
                            Message::Event(EventView::TurnStart),
                        );
                        assert(keeps_identity(g, b));
                        lemma_identity_chain(g, b, c);
                        lemma_identity_chain(
                            g,
                            c,
                            c.deliver(order[0], Message::Event(EventView::TurnStart)),
                        );
                    },
                }
            }
        },
    }
}

/// Identifiers are stable: no action and no disconnect brings a player into
/// the registry, and whoever is registered afterwards has the id and the
/// name assigned at registration.
pub proof fn law_identity_stable(
    g: GameState,
    pid: u64,
    action: Action,
    fresh: u64,
    order: Seq<u64>,
    listing: Seq<u64>,
)
    ensures
        keeps_identity(g, g.act(pid, action, fresh, order, listing)),
        keeps_identity(g, g.evict(pid)),
{
    lemma_deliver_keeps_identity(g, pid, Message::GameStarted);
    if g.players.contains_key(pid) {
        match action {
            Action::CreateRoom { name } => {
                let v = g.vacate(pid);
                lemma_vacate_keeps_identity(g, pid);
                let blank = RoomState {
                    name: name@,
                    order: Seq::empty(),
                    members: Set::empty(),
                    contested: false,
                };
                let e = (GameState { players: v.players, rooms: v.rooms.insert(fresh, blank) }).enter(
                    pid,
                    fresh,
                );
                assert(keeps_identity(v, e)) by {
                    assert(v.players.dom() =~= g.players.dom());
                }
                let d = e.deliver(pid, Message::RoomCreated(fresh));
                lemma_deliver_keeps_identity(e, pid, Message::RoomCreated(fresh));
                let c = d.request(pid, DataType::PlayersName, seq![pid]);
                lemma_request_keeps_identity(d, pid, DataType::PlayersName, seq![pid]);
                lemma_request_keeps_identity(c, pid, DataType::PlayersOrder, seq![pid]);
                lemma_identity_chain(g, v, e);
                lemma_identity_chain(g, e, d);
                lemma_identity_chain(g, d, c);
                lemma_identity_chain(g, c, c.request(pid, DataType::PlayersOrder, seq![pid]));
            },
            Action::JoinRoom { id } => {
                if !g.rooms.contains_key(id) {
                    lemma_deliver_keeps_identity(g, pid, Message::Error(Error::RoomNotFound));
                } else {
                    let v = if g.players[pid].room == Some(id) {
                        g
                    } else {
                        g.vacate(pid)
                    };
                    lemma_vacate_keeps_identity(g, pid);
                    let e = v.enter(pid, id);
                    assert(keeps_identity(v, e)) by {
                        assert(v.players.dom() =~= g.players.dom());
                    }
                    let d = e.deliver(pid, Message::RoomJoined(id));
                    lemma_deliver_keeps_identity(e, pid, Message::RoomJoined(id));
                    let c = d.request(pid, DataType::PlayersName, Seq::empty());
                    lemma_request_keeps_identity(d, pid, DataType::PlayersName, Seq::empty());
                    lemma_request_keeps_identity(c, pid, DataType::PlayersOrder, listing);
                    lemma_identity_chain(g, v, e);
                    lemma_identity_chain(g, e, d);
                    lemma_identity_chain(g, d, c);
                    lemma_identity_chain(g, c, c.request(pid, DataType::PlayersOrder, listing));
                }
            },
            Action::Ready(x, y) => {
                match g.players[pid].room {
                    None => {
                        lemma_deliver_keeps_identity(g, pid, Message::Error(Error::NotJoinedRoom));
                    },
                    Some(r) => {
                        let a = g.readied(pid, x, y);
                        assert(keeps_identity(g, a));
                        lemma_try_start_keeps_identity(a, r, order);
                        lemma_identity_chain(g, a, a.try_start(r, order));
                    },
                }
            },
            Action::Game(a) => {
                lemma_game_action_keeps_identity(g, pid, a);
            },
            Action::RequestData(ty) => {
                lemma_request_keeps_identity(g, pid, ty, listing);
            },
        }
    }
}

/// An attempt to start a match is a no-op unless the room is in the lobby
/// with at least two members who are all ready. In particular it is a no-op
/// once a match is in progress.
pub proof fn law_try_start_idle(g: GameState, room: u64, order: Seq<u64>)
    requires
        g.rooms[room].order.len() > 0 || g.rooms[room].members.len() < 2 || !g.all_ready(room),
    ensures
        g.try_start(room, order) == g,
{
}

/// Every registered player has an open mailbox.
pub open spec fn all_open(g: GameState) -> bool {
    forall|p: u64| #[trigger] g.players.contains_key(p) ==> g.players[p].mailbox.open
}

/// While every mailbox is open, a delivery changes nothing but mail.
proof fn lemma_open_deliver(g: GameState, pid: u64, msg: Message)
    requires
        all_open(g),
    ensures
        g.same_but_mail(g.deliver(pid, msg)),
        all_open(g.deliver(pid, msg)),
{
    if g.players.contains_key(pid) {
        assert(g.players.dom() =~= g.deliver(pid, msg).players.dom());
    }
}

/// While every mailbox is open, deliveries change nothing but mail.
proof fn lemma_open_deliver_each(g: GameState, ids: Seq<u64>, msg: Message)
    requires
        all_open(g),
    ensures
        g.same_but_mail(g.deliver_each(ids, msg)),
        all_open(g.deliver_each(ids, msg)),
    decreases ids.len(),
{
    if ids.len() > 0 {
        let h = g.deliver_each(ids.drop_last(), msg);
        lemma_open_deliver_each(g, ids.drop_last(), msg);
        lemma_open_deliver(h, ids.last(), msg);
        lemma_mail_chain(g, h, h.deliver(ids.last(), msg));
    } else {
        assert(g.players.dom() =~= g.players.dom());
    }
}

/// While every mailbox is open, synchronising changes nothing but mail.
proof fn lemma_open_sync(g: GameState, pid: u64)
    requires
        all_open(g),
    ensures
        g.same_but_mail(g.sync(pid)),
        all_open(g.sync(pid)),
{
    let none = Seq::<u64>::empty();
    let a = g.request(pid, DataType::Player, none);
    let b = a.request(pid, DataType::PlayersOrder, none);
    lemma_open_deliver(g, pid, g.reply(pid, DataType::Player, none));
    lemma_open_deliver(a, pid, a.reply(pid, DataType::PlayersOrder, none));
    lemma_open_deliver(b, pid, b.reply(pid, DataType::PlayersName, none));
    lemma_mail_chain(g, a, b);
    lemma_mail_chain(g, b, g.sync(pid));
}

/// While every mailbox is open, synchronising several players changes
/// nothing but mail.
proof fn lemma_open_sync_each(g: GameState, ids: Seq<u64>)
    requires
        all_open(g),
    ensures
        g.same_but_mail(g.sync_each(ids)),
        all_open(g.sync_each(ids)),
    decreases ids.len(),
{
    if ids.len() > 0 {
        let h = g.sync_each(ids.drop_last());
        lemma_open_sync_each(g, ids.drop_last());
        lemma_open_sync(h, ids.last());
        lemma_mail_chain(g, h, h.sync(ids.last()));
    }
}

/// From the lobby to a match in progress: where a room in the lobby has at
/// least two members, all ready, and every mailbox is open, an attempt to
/// start gives the room the shuffled order as turn order, so that a match is
/// in progress, and changes neither the members nor any other room.
pub proof fn law_try_start_begins(g: GameState, room: u64, order: Seq<u64>)
    requires
        g.rooms.contains_key(room),
        g.can_start(room),
        lists(order, g.rooms[room].members),
        g.rooms[room].members.finite(),
        all_open(g),
    ensures
        g.try_start(room, order).rooms == g.rooms.insert(room, g.rooms[room].started(order)),
        g.try_start(room, order).rooms[room].running(),
        g.try_start(room, order).players.dom() == g.players.dom(),
{
    let a = GameState {
        players: g.players,
        rooms: g.rooms.insert(room, g.rooms[room].started(order)),
    };
    let b = a.deliver_each(order, Message::GameStarted);
    let c = b.sync_each(order);
    lemma_open_deliver_each(a, order, Message::GameStarted);
    lemma_open_sync_each(b, order);
    if c.rooms.contains_key(room) && c.rooms[room].order.len() > 0 {
        lemma_open_deliver(c, c.rooms[room].order[0], Message::Event(EventView::TurnStart));
    }
    order.unique_seq_to_set();
}

/// Rotation preserves membership: the rotated turn order holds the same
/// players, each as often as before.
pub proof fn law_rotation_permutes(order: Seq<u64>)
    requires
        order.len() > 0,
    ensures
        rotate(order).to_multiset() == order.to_multiset(),
        rotate(order).len() == order.len(),
{
    let front = seq![order[0]];
    let behind = order.drop_first();
    assert(order =~= front + behind);
    assert(rotate(order) =~= behind + front);
    vstd::seq_lib::lemma_seq_union_to_multiset_commutative(front, behind);
}

/// A batched kill removes nobody but victims and brings nobody in: the
/// turn order afterwards has no duplicates, holds every player of the old
/// order who is not a victim, and holds only players of the old order.
pub proof fn law_kill_keeps_survivors(order: Seq<u64>, victims: Set<u64>)
    requires
        order.len() > 0,
        order.no_duplicates(),
    ensures
        kill_result(order, victims).no_duplicates(),
        kill_result(order, victims).len() > 0,
        forall|x: u64|
            order.contains(x) && !victims.contains(x) ==> #[trigger] kill_result(
                order,
                victims,
            ).contains(x),
        forall|x: u64| #[trigger] kill_result(order, victims).contains(x) ==> order.contains(x),
        forall|x: u64| #[trigger]
            kill_result(order, victims).contains(x) && victims.contains(x) ==> x == order[0]
                && kill_result(order, victims) == seq![x],
{
    let room = RoomState {
        name: Seq::empty(),
        order,
        members: order.to_set(),
        contested: true,
    };
    assert(room.wf()) by {
        vstd::seq_lib::seq_to_set_is_finite(order);
    }
    lemma_struck_wf(room, victims);
    let behind = order.drop_first();
    let others = behind.filter(spared(victims));
    let after = kill_result(order, victims);
    lemma_filter_distinct(behind, spared(victims));
    assert forall|x: u64| order.contains(x) && !victims.contains(x) implies #[trigger] after.contains(
        x,
    ) by {
        let k = choose|k: int| 0 <= k < order.len() && order[k] == x;
        if k == 0 {
            assert(after[0] == x);
        } else {
            assert(behind[k - 1] == x);
            assert(others.contains(x));
            let j = choose|j: int| 0 <= j < others.len() && others[j] == x;
            if after == others {
            } else {
                assert(after[j + 1] == x);
            }
        }
    }
    assert forall|x: u64| #[trigger] after.contains(x) && victims.contains(x) implies x == order[0]
        && after == seq![x] by {
        let j = choose|j: int| 0 <= j < after.len() && after[j] == x;
        if after == others {
            assert(others.contains(x));
        } else {
            if j > 0 {
                assert(others[j - 1] == x);
                assert(others.contains(x));
            }
            assert(others.len() == 0);
            assert(after =~= seq![x]);
        }
    }
}

/// A batched kill of everyone in the turn order, the current player
/// included, leaves exactly the current player.
pub proof fn law_kill_all_leaves_current(order: Seq<u64>, victims: Set<u64>)
    requires
        order.len() > 0,
        forall|i: int| 0 <= i < order.len() ==> victims.contains(#[trigger] order[i]),
    ensures
        kill_result(order, victims) == seq![order[0]],
{
    let behind = order.drop_first();
    let others = behind.filter(spared(victims));
    if others.len() > 0 {
        behind.lemma_filter_pred(spared(victims), 0);
        behind.lemma_filter_contains_rev(spared(victims), others[0]);
        let k = choose|k: int| 0 <= k < behind.len() && behind[k] == others[0];
        assert(victims.contains(order[k + 1]));
    }
    assert(kill_result(order, victims) =~= seq![order[0]]);
}

/// Stage ordering, the permitted half: the current player may attack on a
/// fresh turn, without a move or a run before, if the target is in reach.
pub proof fn law_attack_from_fresh_turn(g: GameState, pid: u64, room: u64, x: u8, y: u8)
    requires
        g.players[pid].room == Some(room),
        g.rooms.contains_key(room),
        g.rooms[room].order.len() > 0,
        g.rooms[room].order[0] == pid,
        g.players[pid].ingame is Some,
        g.players[pid].ingame->0.stage == 0,
        manhattan((x, y), g.players[pid].ingame->0.position) <= 1,
    ensures
        g.game_action(pid, GameAction::Attack(x, y)) == g.attack(pid, room, x, y),
{
}

/// Stage ordering, the rejected half: after an attack in the same turn a
/// move or a run of the current player is an ordering error, wherever it
/// aims, and so is a second attack.
pub proof fn law_no_action_after_attack(g: GameState, pid: u64, room: u64, x: u8, y: u8)
    requires
        g.players[pid].room == Some(room),
        g.rooms.contains_key(room),
        g.rooms[room].order.len() > 0,
        g.rooms[room].order[0] == pid,
        g.players[pid].ingame is Some,
        g.players[pid].ingame->0.stage == 2,
    ensures
        g.game_action(pid, GameAction::Move(x, y)) == g.deliver(
            pid,
            Message::Error(Error::ActionOrderIncorrect),
        ),
        g.game_action(pid, GameAction::Run(x, y)) == g.deliver(
            pid,
            Message::Error(Error::ActionOrderIncorrect),
        ),
        g.game_action(pid, GameAction::Attack(x, y)) == g.deliver(
            pid,
            Message::Error(Error::ActionOrderIncorrect),
        ),
{
}

/// A valid attack leaves the attacker at stage 2, so that the law above
/// applies to the rest of the turn.
pub proof fn law_attack_sets_stage(g: GameState, pid: u64, room: u64, x: u8, y: u8)
    requires
        g.wf(),
        g.in_game(pid),
        g.rooms.contains_key(room),
        g.rooms[room].order.len() > 0,
    ensures
        g.attack(pid, room, x, y).players.contains_key(pid),
        g.attack(pid, room, x, y).players[pid].ingame == Some(
            IngameProp { stage: 2, ..g.players[pid].ingame->0 },
        ),
{
    let prop = g.players[pid].ingame->0;
    let a = g.set_ingame(pid, IngameProp { stage: 2, ..prop });
    let msg = Message::Event(EventView::Attack(x, y));
    let b = a.broadcast(room, msg);
    lemma_broadcast_mail(a, room, msg);
    let dead = g.victims(room, x, y);
    let c = b.mourn(room, dead);
    crate::consistency::lemma_mourn_mail(b, room, dead);
    lemma_mail_chain(a, b, c);
    let d = GameState {
        players: c.players,
        rooms: c.rooms.insert(room, c.rooms[room].struck(dead.to_set())),
    };
    crate::model::lemma_announce_mail(d, room);
    assert(a.players.contains_key(pid));
    assert(c.players.dom().contains(pid));
    assert(d.same_but_mail(d.announce_winner(room)));
    assert(d.players.dom().contains(pid));
}

/// A disconnect that reduces a room to one member while a match is in
/// progress ends the match: the member who remains is alone in the turn
/// order and is the winner, and, if that member's mailbox is open, is told
/// first of the departure and then of the end of the game, by name.
pub proof fn law_last_opponent_leaves(g: GameState, pid: u64, room: u64, last: u64)
    requires
        g.wf(),
        g.players.contains_key(pid),
        g.players[pid].room == Some(room),
        g.rooms[room].running(),
        g.rooms[room].members == set![pid, last],
        pid != last,
    ensures
        g.evict(pid).rooms.contains_key(room),
        g.evict(pid).rooms[room].members == set![last],
        g.evict(pid).rooms[room].order == seq![last],
        g.evict(pid).rooms[room].winner() == Some(last),
        g.evict(pid).players.contains_key(last),
        g.players[last].mailbox.open ==> g.evict(pid).players[last].mailbox.queue
            == g.players[last].mailbox.queue.push(
            Message::Event(EventView::Disconnected(g.players[pid].name)),
        ).push(Message::Event(EventView::GameEnd(g.players[last].name))),
{
    assert(g.player_ok(pid));
    assert(g.room_ok(room));
    let before = g.rooms[room];
    let after = before.left(pid);
    lemma_left_wf(before, pid);
    assert(after.members =~= set![last]);
    assert(before.members.contains(last));
    assert(g.players.contains_key(last));
    // Both members are in the turn order.
    assert(before.order.contains(last)) by {
        assert(before.members.contains(before.order[0]));
        assert(before.members.contains(before.order[1]));
        if before.order[0] == last {
        } else {
            assert(before.order[0] == pid);
            assert(before.order[1] != before.order[0]);
            assert(before.order[1] == last);
        }
    }
    assert(after.order.contains(last));
    assert(after.order =~= seq![last]) by {
        assert forall|i: int| 0 <= i < after.order.len() implies after.order[i] == last by {
            assert(after.order.contains(after.order[i]));
            assert(before.order.contains(after.order[i]));
            let k = choose|k: int| 0 <= k < before.order.len() && before.order[k]
                == after.order[i];
            assert(before.members.contains(before.order[k]));
        }
        if after.order.len() > 1 {
            assert(after.order[0] != after.order[1]);
        }
    }
    assert(after.members.len() == 1);
    assert(before.members.len() > 1) by {
        assert(before.members.remove(pid) =~= after.members);
    }
}

} // verus!
