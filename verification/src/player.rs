//! Per-connection state: identity, room membership, in-game position and
//! turn stage, readiness, and the outbound mailbox.

use crate::protocol::{Message, Response};
use vstd::prelude::*;

verus! {

/// Where a player stands and how far the player's turn has advanced.
///
/// `stage` is 0 on a fresh turn, 1 after a move or a run, 2 after an attack.
#[derive(Debug, Clone, Copy, PartialEq, Eq)]
pub struct IngameProp {
    pub position: (u8, u8),
    pub stage: u8,
}

/// The view of a [`Mailbox`]: the messages waiting in it, oldest first, and
/// whether anyone still drains it.
pub struct MailboxState {
    pub queue: Seq<Message>,
    pub open: bool,
}

impl MailboxState {
    /// The mailbox after an attempt to post `msg`: an open mailbox gains the
    /// message at its end, a closed one stays as it is.
    pub open spec fn post(self, msg: Message) -> MailboxState {
        if self.open {
            MailboxState { queue: self.queue.push(msg), open: true }
        } else {
            self
        }
    }
}

/// A player's outbound message queue: unbounded and ordered.
///
/// The transport drains it with [`Mailbox::drain`] and calls
/// [`Mailbox::close`] once the receiving side is gone.
#[derive(Debug)]
pub struct Mailbox {
    pub queue: Vec<Response>,
    pub open: bool,
}

impl View for Mailbox {
    type V = MailboxState;

    open spec fn view(&self) -> MailboxState {
        MailboxState { queue: self.queue@.map_values(|r: Response| r@), open: self.open }
    }
}

impl Mailbox {
    /// An empty mailbox that is being drained.
    pub fn new() -> (m: Mailbox)
        ensures
            m@ == (MailboxState { queue: Seq::empty(), open: true }),
    {
        let m = Mailbox { queue: Vec::new(), open: true };
        assert(m@.queue =~= Seq::empty());
        m
    }

    /// Tries to place `res` at the end of the queue; fails, leaving the
    /// mailbox as it was, when the receiving side is gone.
    pub fn send(&mut self, res: Response) -> (sent: bool)
        ensures
            sent == old(self)@.open,
            final(self)@ == old(self)@.post(res@),
    {
        if self.open {
            self.queue.push(res);
            assert(self@.queue =~= old(self)@.queue.push(res@));
            true
        } else {
            false
        }
    }

    /// Marks the receiving side as gone; later sends fail.
    pub fn close(&mut self)
        ensures
            final(self)@ == (MailboxState { queue: old(self)@.queue, open: false }),
    {
        self.open = false;
    }

    /// Whether the receiving side is still there.
    pub fn is_open(&self) -> (b: bool)
        ensures
            b == self@.open,
    {
        self.open
    }

    /// Takes every waiting message out of the queue, oldest first.
    pub fn drain(&mut self) -> (out: Vec<Response>)
        ensures
            out@.map_values(|r: Response| r@) == old(self)@.queue,
            final(self)@ == (MailboxState { queue: Seq::empty(), open: old(self)@.open }),
    {
        let mut out: Vec<Response> = Vec::new();
        std::mem::swap(&mut out, &mut self.queue);
        assert(self@.queue =~= Seq::empty());
        out
    }
}

/// The view of a [`Player`].
pub struct PlayerState {
    pub id: u64,
    pub name: Seq<char>,
    pub room: Option<u64>,
    pub ingame: Option<IngameProp>,
    pub ready: bool,
    pub mailbox: MailboxState,
}

impl PlayerState {
    /// The player after an attempt to post `msg` to the mailbox.
    pub open spec fn post(self, msg: Message) -> PlayerState {
        PlayerState { mailbox: self.mailbox.post(msg), ..self }
    }
}

/// One connected player.
#[derive(Debug)]
pub struct Player {
    pub id: u64,
    pub name: String,
    pub room: Option<u64>,
    pub mailbox: Mailbox,
    pub ingame: Option<IngameProp>,
    pub ready: bool,
}

impl View for Player {
    type V = PlayerState;

    open spec fn view(&self) -> PlayerState {
        PlayerState {
            id: self.id,
            name: self.name@,
            room: self.room,
            ingame: self.ingame,
            ready: self.ready,
            mailbox: self.mailbox@,
        }
    }
}

/// A snapshot of a player without the mailbox.
#[derive(Debug, PartialEq, Eq)]
pub struct PlayerExport {
    pub id: u64,
    pub name: String,
    pub room: Option<u64>,
    pub ingame: Option<IngameProp>,
    pub ready: bool,
}

impl Clone for PlayerExport {
    /// A snapshot with the same fields.
    fn clone(&self) -> (e: PlayerExport)
        ensures
            e == *self,
    {
        PlayerExport {
            id: self.id,
            name: self.name.clone(),
            room: self.room,
            ingame: self.ingame,
            ready: self.ready,
        }
    }
}

impl PlayerExport {
    /// The snapshot shows player `p`.
    pub open spec fn shows(self, p: PlayerState) -> bool {
        &&& self.id == p.id
        &&& self.name@ == p.name
        &&& self.room == p.room
        &&& self.ingame == p.ingame
        &&& self.ready == p.ready
    }
}

impl Player {
    /// A player who has just connected: in no room, not ready, with an empty
    /// open mailbox.
    pub fn new(id: u64, name: String) -> (p: Player)
        ensures
            p@ == (PlayerState {
                id,
                name: name@,
                room: None,
                ingame: None,
                ready: false,
                mailbox: MailboxState { queue: Seq::empty(), open: true },
            }),
    {
        Player { id, name, room: None, mailbox: Mailbox::new(), ingame: None, ready: false }
    }

    /// Posts `res` to the player's mailbox and reports whether it was taken.
    pub fn send(&mut self, res: Response) -> (sent: bool)
        ensures
            sent == old(self)@.mailbox.open,
            final(self)@ == old(self)@.post(res@),
    {
        self.mailbox.send(res)
    }

    /// The in-game state of a player who has one.
    pub fn ingame(&self) -> (prop: &IngameProp)
        requires
            self.ingame is Some,
        ensures
            *prop == self.ingame->0,
    {
        self.ingame.as_ref().unwrap()
    }

    /// Mutable access to the in-game state of a player who has one. Whatever
    /// is written through the reference becomes the player's in-game state;
    /// nothing else changes.
    pub fn ingame_mut(&mut self) -> (prop: &mut IngameProp)
        requires
            old(self).ingame is Some,
        ensures
            *prop == old(self).ingame->0,
            *final(self) == (Player { ingame: Some(*final(prop)), ..*old(self) }),
    {
        self.ingame.as_mut().unwrap()
    }

    /// The player's fields without the mailbox.
    pub fn export(&self) -> (e: PlayerExport)
        ensures
            e.shows(self@),
    {
        PlayerExport {
            id: self.id,
            name: self.name.clone(),
            room: self.room,
            ingame: self.ingame,
            ready: self.ready,
        }
    }
}

} // verus!
