//! A room: its members, its turn order, and the rules of turn rotation and
//! batched elimination.

use crate::chance::{seeded_rng, shuffle_ids};
use crate::player::{Player, PlayerState};
use crate::protocol::{Message, Response};
use rand::rngs::SmallRng;
use std::collections::{HashMap, HashSet, VecDeque};
use vstd::prelude::*;
use vstd::std_specs::iter::IteratorSpec;

verus! {

broadcast use vstd::std_specs::hash::group_hash_axioms;

/// The predicate "is not `id`".
pub open spec fn other_than(id: u64) -> spec_fn(u64) -> bool {
    |x: u64| x != id
}

/// The predicate "is not among `victims`".
pub open spec fn spared(victims: Set<u64>) -> spec_fn(u64) -> bool {
    |x: u64| !victims.contains(x)
}

/// The turn order after a batched kill.
///
/// The front of `order` is the current player. Everyone behind the front who
/// is among `victims` leaves, the others keep their relative order. The front
/// leaves too if it is a victim and somebody else survives; a front that
/// would leave nobody behind stays.
pub open spec fn kill_result(order: Seq<u64>, victims: Set<u64>) -> Seq<u64> {
    let others = order.drop_first().filter(spared(victims));
    if victims.contains(order[0]) && others.len() > 0 {
        others
    } else {
        seq![order[0]] + others
    }
}

/// `order` with its front moved to the back.
pub open spec fn rotate(order: Seq<u64>) -> Seq<u64> {
    order.drop_first().push(order[0])
}

/// The view of a [`Room`].
pub struct RoomState {
    pub name: Seq<char>,
    pub order: Seq<u64>,
    pub members: Set<u64>,
    pub contested: bool,
}

impl RoomState {
    /// The invariant of a room: the turn order names each player at most
    /// once and only members, and a room with several members is marked as
    /// contested.
    pub open spec fn wf(self) -> bool {
        &&& self.members.finite()
        &&& self.order.no_duplicates()
        &&& forall|i: int| 0 <= i < self.order.len() ==> self.members.contains(#[trigger] self.order[i])
        &&& self.members.len() > 1 ==> self.contested
    }

    /// A match is in progress.
    pub open spec fn running(self) -> bool {
        self.order.len() > 1
    }

    /// The winner: the only player left in the turn order of a room that has
    /// held more than one member.
    pub open spec fn winner(self) -> Option<u64> {
        if self.order.len() == 1 && self.contested {
            Some(self.order[0])
        } else {
            None
        }
    }

    /// The room with `id` among its members.
    pub open spec fn joined(self, id: u64) -> RoomState {
        RoomState {
            members: self.members.insert(id),
            contested: self.contested || self.members.insert(id).len() > 1,
            ..self
        }
    }

    /// The room without `id`, neither as a member nor in the turn order.
    pub open spec fn left(self, id: u64) -> RoomState {
        RoomState {
            members: self.members.remove(id),
            order: self.order.filter(other_than(id)),
            ..self
        }
    }

    /// The room with `order` as its turn order.
    pub open spec fn started(self, order: Seq<u64>) -> RoomState {
        RoomState { order, ..self }
    }

    /// The room after the current player's turn has ended.
    pub open spec fn rotated(self) -> RoomState {
        RoomState { order: rotate(self.order), ..self }
    }

    /// The room after a batched kill of `victims`.
    pub open spec fn struck(self, victims: Set<u64>) -> RoomState {
        RoomState { order: kill_result(self.order, victims), ..self }
    }
}

/// The views of the players of a registry.
pub open spec fn players_view(players: Map<u64, Player>) -> Map<u64, PlayerState> {
    players.map_values(|p: Player| p@)
}

/// The players after `msg` has been posted to each of `targets`.
pub open spec fn posted_to(
    players: Map<u64, PlayerState>,
    targets: Set<u64>,
    msg: Message,
) -> Map<u64, PlayerState> {
    Map::new(
        |id: u64| players.contains_key(id),
        |id: u64|
            if targets.contains(id) {
                players[id].post(msg)
            } else {
                players[id]
            },
    )
}

/// One more element of a sequence passes through a filter.
pub proof fn lemma_filter_step(s: Seq<u64>, k: int, pred: spec_fn(u64) -> bool)
    requires
        0 <= k < s.len(),
    ensures
        s.take(k + 1).filter(pred) == if pred(s[k]) {
            s.take(k).filter(pred).push(s[k])
        } else {
            s.take(k).filter(pred)
        },
{
    s.lemma_take_succ_push(k);
    s.take(k).lemma_filter_push(s[k], pred);
}

/// Filtering keeps a sequence free of duplicates and keeps exactly the
/// elements that satisfy the predicate.
pub proof fn lemma_filter_distinct(s: Seq<u64>, pred: spec_fn(u64) -> bool)
    requires
        s.no_duplicates(),
    ensures
        s.filter(pred).no_duplicates(),
        forall|x: u64| #[trigger] s.filter(pred).contains(x) <==> s.contains(x) && pred(x),
    decreases s.len(),
{
    reveal(Seq::filter);
    if s.len() > 0 {
        let front = s.drop_last();
        lemma_filter_distinct(front, pred);
        let kept = front.filter(pred);
        assert forall|x: u64| #[trigger] s.filter(pred).contains(x) <==> s.contains(x) && pred(
            x,
        ) by {
            if s.contains(x) && pred(x) {
                let i = choose|i: int| 0 <= i < s.len() && s[i] == x;
                if i < s.len() - 1 {
                    assert(front[i] == x);
                    assert(kept.contains(x));
                    let j = choose|j: int| 0 <= j < kept.len() && kept[j] == x;
                    assert(s.filter(pred)[j] == x);
                } else {
                    assert(s.filter(pred).last() == x);
                }
            }
            if s.filter(pred).contains(x) {
                let j = choose|j: int| 0 <= j < s.filter(pred).len() && s.filter(pred)[j] == x;
                if j < kept.len() {
                    assert(kept[j] == x);
                    assert(kept.contains(x));
                    let i = choose|i: int| 0 <= i < front.len() && front[i] == x;
                    assert(s[i] == x);
                } else {
                    assert(s.last() == x);
                }
            }
        }
        if pred(s.last()) {
            assert(!front.contains(s.last())) by {
                if front.contains(s.last()) {
                    let i = choose|i: int| 0 <= i < front.len() && front[i] == s.last();
                    assert(s[i] == s[s.len() - 1]);
                }
            }
            assert(!kept.contains(s.last()));
        }
    }
}

/// Two sequences with the same elements, each as often, are both free of
/// duplicates or neither is, and they hold the same set.
pub proof fn lemma_rearranged(a: Seq<u64>, b: Seq<u64>)
    requires
        a.to_multiset() == b.to_multiset(),
        a.no_duplicates(),
    ensures
        b.no_duplicates(),
        b.to_set() == a.to_set(),
{
    broadcast use vstd::seq_lib::group_to_multiset_ensures;

    a.lemma_multiset_has_no_duplicates();
    b.lemma_multiset_has_no_duplicates_conv();
    assert forall|x: u64| b.to_set().contains(x) <==> a.to_set().contains(x) by {
        assert(b.contains(x) <==> b.to_multiset().count(x) > 0);
        assert(a.contains(x) <==> a.to_multiset().count(x) > 0);
    }
    assert(b.to_set() =~= a.to_set());
}

/// Leaving keeps a room's invariant, and the turn order afterwards holds
/// exactly the others who were in it before.
pub proof fn lemma_left_wf(room: RoomState, id: u64)
    requires
        room.wf(),
    ensures
        room.left(id).wf(),
        forall|x: u64| #[trigger]
            room.left(id).order.contains(x) <==> room.order.contains(x) && x != id,
        room.left(id).order.len() <= room.order.len(),
{
    let after = room.left(id);
    lemma_filter_distinct(room.order, other_than(id));
    assert forall|j: int| 0 <= j < after.order.len() implies after.members.contains(
        #[trigger] after.order[j],
    ) by {
        assert(after.order.contains(after.order[j]));
        let k = choose|k: int| 0 <= k < room.order.len() && room.order[k] == after.order[j];
        assert(room.members.contains(room.order[k]));
    }
    if room.members.contains(id) {
        assert(after.members.len() < room.members.len());
    }
}

/// A snapshot of a room.
#[derive(Debug, PartialEq, Eq)]
pub struct RoomExport {
    pub name: String,
    pub order: VecDeque<u64>,
    pub players: HashSet<u64>,
}

impl RoomExport {
    /// The snapshot shows room `r`.
    pub open spec fn shows(self, r: RoomState) -> bool {
        &&& self.name@ == r.name
        &&& self.order@ == r.order
        &&& self.players@ == r.members
    }
}

/// A set with the same elements as `set`.
pub fn copy_set(set: &HashSet<u64>) -> (copy: HashSet<u64>)
    ensures
        copy@ == set@,
{
    let mut copy: HashSet<u64> = HashSet::new();
    let ghost walk = set.iter().remaining().unref();
    for id in it: set.iter()
        invariant
            it.seq().unref() == walk,
            walk.to_set() == set@,
            copy@ == walk.take(it.index()).to_set(),
    {
        proof {
            walk.lemma_take_succ_push(it.index());
            walk.take(it.index()).lemma_push_to_set_commute(*id);
        }
        copy.insert(*id);
    }
    proof {
        walk.lemma_take_len();
    }
    copy
}

impl Clone for RoomExport {
    /// A snapshot with the same name, order and members.
    fn clone(&self) -> (e: RoomExport)
        ensures
            e.name@ == self.name@,
            e.order@ == self.order@,
            e.players@ == self.players@,
    {
        let order = self.order.clone();
        assert(order@ =~= self.order@);
        RoomExport { name: self.name.clone(), order, players: copy_set(&self.players) }
    }
}

/// A group of players and the state of their match.
///
/// `order` is empty in the lobby; its front is the player whose turn it is.
/// `contested` records that the room has held more than one member at once.
#[derive(Debug)]
pub struct Room {
    pub name: String,
    pub order: VecDeque<u64>,
    pub players: HashSet<u64>,
    pub contested: bool,
    pub rng: SmallRng,
}

impl View for Room {
    type V = RoomState;

    open spec fn view(&self) -> RoomState {
        RoomState {
            name: self.name@,
            order: self.order@,
            members: self.players@,
            contested: self.contested,
        }
    }
}

/// Whether `x` occurs in `ids`.
pub fn holds(ids: &[u64], x: u64) -> (found: bool)
    ensures
        found == ids@.contains(x),
{
    let mut i: usize = 0;
    while i < ids.len()
        invariant
            i <= ids.len(),
            forall|j: int| 0 <= j < i ==> ids@[j] != x,
        decreases ids.len() - i,
    {
        if ids[i] == x {
            return true;
        }
        i += 1;
    }
    false
}

impl Room {
    /// An empty room in the lobby state. `seed` seeds the generator that
    /// will shuffle the turn order.
    pub fn new(name: String, seed: u64) -> (room: Room)
        ensures
            room@ == (RoomState {
                name: name@,
                order: Seq::empty(),
                members: Set::empty(),
                contested: false,
            }),
            room@.wf(),
    {
        Room {
            name,
            order: VecDeque::new(),
            players: HashSet::new(),
            contested: false,
            rng: seeded_rng(seed),
        }
    }

    /// Whether a match is in progress.
    pub fn is_gamming(&self) -> (b: bool)
        ensures
            b == self@.running(),
    {
        self.order.len() > 1
    }

    /// The winner, if the match has ended.
    pub fn winner(&self) -> (w: Option<u64>)
        ensures
            w == self@.winner(),
    {
        if self.order.len() == 1 && self.contested {
            Some(self.order[0])
        } else {
            None
        }
    }

    /// The members in some order, each once.
    pub fn member_list(&self) -> (list: Vec<u64>)
        ensures
            list@.no_duplicates(),
            list@.to_set() == self@.members,
    {
        let mut list: Vec<u64> = Vec::new();
        let ghost walk = self.players.iter().remaining().unref();
        for id in it: self.players.iter()
            invariant
                it.seq().unref() == walk,
                list@ == walk.take(it.index()),
        {
            list.push(*id);
        }
        assert(list@ =~= walk);
        list
    }

    /// The turn order as a vector, front first.
    pub fn order_list(&self) -> (list: Vec<u64>)
        ensures
            list@ == self@.order,
    {
        let mut list: Vec<u64> = Vec::new();
        let mut i: usize = 0;
        while i < self.order.len()
            invariant
                i <= self.order.len(),
                list@ == self.order@.take(i as int),
            decreases self.order.len() - i,
        {
            proof {
                self.order@.lemma_take_succ_push(i as int);
            }
            list.push(self.order[i]);
            i += 1;
        }
        proof {
            self.order@.lemma_take_len();
        }
        list
    }

    /// Adds `id` to the members.
    pub fn join(&mut self, id: u64)
        requires
            old(self)@.wf(),
        ensures
            final(self)@ == old(self)@.joined(id),
            final(self)@.wf(),
    {
        self.players.insert(id);
        if self.players.len() > 1 {
            self.contested = true;
        }
    }

    /// Removes `id` from the members and from the turn order.
    pub fn leave(&mut self, id: u64)
        requires
            old(self)@.wf(),
        ensures
            final(self)@ == old(self)@.left(id),
            final(self)@.wf(),
    {
        self.players.remove(&id);
        let ghost before = self.order@;
        let mut kept: VecDeque<u64> = VecDeque::new();
        let mut i: usize = 0;
        while i < self.order.len()
            invariant
                i <= self.order.len(),
                self.order@ == before,
                kept@ == before.take(i as int).filter(other_than(id)),
            decreases self.order.len() - i,
        {
            let x = self.order[i];
            proof {
                lemma_filter_step(before, i as int, other_than(id));
            }
            if x != id {
                kept.push_back(x);
            }
            i += 1;
        }
        proof {
            before.lemma_take_len();
            lemma_left_wf(old(self)@, id);
        }
        self.order = kept;
    }

    /// Begins a match: the turn order becomes a shuffle of the members.
    ///
    /// Which arrangement comes out is up to the generator; the contract
    /// states what holds of all of them.
    pub fn start(&mut self)
        ensures
            final(self)@ == old(self)@.started(final(self)@.order),
            final(self)@.order.no_duplicates(),
            final(self)@.order.to_set() == old(self)@.members,
    {
        let mut ids = self.member_list();
        let ghost listed = ids@;
        shuffle_ids(&mut ids, &mut self.rng);
        proof {
            lemma_rearranged(listed, ids@);
        }
        let mut order: VecDeque<u64> = VecDeque::new();
        let mut i: usize = 0;
        while i < ids.len()
            invariant
                i <= ids.len(),
                order@ == ids@.take(i as int),
            decreases ids.len() - i,
        {
            proof {
                ids@.lemma_take_succ_push(i as int);
            }
            order.push_back(ids[i]);
            i += 1;
        }
        proof {
            ids@.lemma_take_len();
        }
        self.order = order;
    }

    /// The player whose turn it is.
    pub fn currect_player_id(&self) -> (id: u64)
        requires
            self@.order.len() > 0,
        ensures
            id == self@.order[0],
    {
        self.order[0]
    }

    /// Ends the current turn: moves the front of the turn order to the back
    /// and returns the new front.
    pub fn push_player(&mut self) -> (id: u64)
        requires
            old(self)@.order.len() > 0,
        ensures
            final(self)@ == old(self)@.rotated(),
            id == final(self)@.order[0],
    {
        let front = self.order.pop_front().unwrap();
        self.order.push_back(front);
        assert(self.order@ =~= rotate(old(self).order@));
        self.order[0]
    }

    /// Posts a copy of `res` to every member. A closed mailbox is skipped.
    pub fn boardcast(&self, res: Response, players: &mut HashMap<u64, Player>)
        requires
            forall|id: u64| self@.members.contains(id) ==> old(players)@.contains_key(id),
        ensures
            players_view(final(players)@) == posted_to(
                players_view(old(players)@),
                self@.members,
                res@,
            ),
    {
        let list = self.member_list();
        let ghost before = players_view(players@);
        let mut i: usize = 0;
        assert(players_view(players@) =~= posted_to(before, list@.take(0).to_set(), res@));
        assert forall|j: int| 0 <= j < list.len() implies #[trigger] before.contains_key(
            list@[j],
        ) by {
            assert(list@.to_set().contains(list@[j]));
        }
        while i < list.len()
            invariant
                i <= list.len(),
                list@.no_duplicates(),
                forall|j: int| 0 <= j < list.len() ==> #[trigger] before.contains_key(list@[j]),
                players_view(players@) == posted_to(before, list@.take(i as int).to_set(), res@),
            decreases list.len() - i,
        {
            let id = list[i];
            let ghost seen = list@.take(i as int).to_set();
            let ghost current = players@;
            assert(before.contains_key(list@[i as int]));
            assert(players_view(current).contains_key(id));
            assert(!seen.contains(id)) by {
                if list@.take(i as int).contains(id) {
                    let j = choose|j: int| 0 <= j < i && list@.take(i as int)[j] == id;
                    assert(list@[j] == list@[i as int]);
                }
            }
            assert(players_view(current)[id] == before[id]);
            let found = players.remove(&id);
            let mut player = found.unwrap();
            assert(player@ == before[id]);
            player.send(res.clone());
            players.insert(id, player);
            proof {
                list@.lemma_take_succ_push(i as int);
                list@.take(i as int).lemma_push_to_set_commute(id);
                let grown = list@.take(i as int + 1).to_set();
                assert(grown == seen.insert(id));
                assert forall|k: u64| players_view(players@).contains_key(k) implies #[trigger] players_view(
                    players@,
                )[k] == posted_to(before, grown, res@)[k] by {
                    if k != id {
                        assert(players@[k] == current[k]);
                        assert(players_view(current)[k] == posted_to(before, seen, res@)[k]);
                    }
                }
                assert(players_view(players@) =~= posted_to(before, grown, res@));
            }
            i += 1;
        }
        proof {
            list@.lemma_take_len();
        }
    }

    /// Removes the players in `player_id` from the turn order in one step,
    /// cycling once from just behind the current player.
    pub fn kill_players(&mut self, player_id: &[u64])
        requires
            old(self)@.order.len() > 0,
            old(self)@.order.no_duplicates(),
        ensures
            final(self)@ == old(self)@.struck(player_id@.to_set()),
    {
        let current = self.currect_player_id();
        let ghost start = self.order@;
        let ghost behind = start.drop_first();
        let ghost keep = spared(player_id@.to_set());
        let front = self.order.pop_front().unwrap();
        self.order.push_back(front);
        let ghost seen: int = 0;
        assert(self.order@ =~= behind.skip(0) + seq![current] + behind.take(0).filter(keep)) by {
            reveal(Seq::filter);
        }
        while self.currect_player_id() != current
            invariant
                0 <= seen <= behind.len(),
                start.len() > 0,
                start.no_duplicates(),
                start[0] == current,
                behind == start.drop_first(),
                keep == spared(player_id@.to_set()),
                self.order@ == behind.skip(seen) + seq![current] + behind.take(seen).filter(keep),
                self.order@.len() > 0,
                self.name == old(self).name,
                self.players == old(self).players,
                self.contested == old(self).contested,
            decreases behind.len() - seen,
        {
            assert(seen < behind.len()) by {
                if seen == behind.len() {
                    assert(self.order@[0] == current);
                }
            }
            assert(self.order@[0] == behind[seen]);
            let ghost tail = self.order@.drop_first();
            assert(tail =~= behind.skip(seen + 1) + seq![current] + behind.take(seen).filter(keep));
            proof {
                lemma_filter_step(behind, seen, keep);
            }
            let head = self.order.pop_front().unwrap();
            assert(self.order@ =~= tail);
            if !holds(player_id, head) {
                self.order.push_back(head);
                assert(self.order@ =~= behind.skip(seen + 1) + seq![current] + behind.take(
                    seen + 1,
                ).filter(keep));
            }
            proof {
                seen = seen + 1;
            }
        }
        proof {
            assert(seen == behind.len()) by {
                if seen < behind.len() {
                    assert(self.order@[0] == behind[seen]);
                    assert(start[seen + 1] == start[0]);
                }
            }
            behind.lemma_take_len();
            assert(self.order@ =~= seq![current] + behind.filter(keep));
        }
        if self.order.len() != 1 && holds(player_id, current) {
            self.order.pop_front();
            assert(self.order@ =~= behind.filter(keep));
        }
    }

    /// A snapshot of the room.
    pub fn export(&self) -> (e: RoomExport)
        ensures
            e.shows(self@),
    {
        let order = self.order.clone();
        assert(order@ =~= self.order@);
        RoomExport { name: self.name.clone(), order, players: copy_set(&self.players) }
    }
}

} // verus!
