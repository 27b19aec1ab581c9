//! The messages exchanged with clients: the actions a client may issue and
//! the responses and events the engine produces.
//!
//! Every response has a mathematical view, [`Message`], in which names are
//! sequences of characters, orders are sequences of ids and directories are
//! maps. Contracts speak of mailboxes as sequences of such views.

use std::collections::HashMap;
use vstd::prelude::*;

verus! {

/// Why an action was rejected.
#[derive(Debug, Clone, Copy, PartialEq, Eq, Structural)]
pub enum Error {
    RoomNotFound,
    NotJoinedRoom,
    NotInGame,
    NotYourTurn,
    ActionOrderIncorrect,
    IllegalParameter,
    Other,
}

/// What a player may do while a match runs.
#[derive(Debug, Clone, Copy, PartialEq, Eq, Structural)]
pub enum GameAction {
    Move(u8, u8),
    Attack(u8, u8),
    Run(u8, u8),
    End,
}

/// The projections a client may ask for.
#[derive(Debug, Clone, Copy, PartialEq, Eq, Structural)]
pub enum DataType {
    Player,
    PlayersOrder,
    PlayersName,
    RoomList,
}

/// An action issued by a client.
#[derive(Debug, PartialEq, Eq)]
pub enum Action {
    CreateRoom { name: String },
    JoinRoom { id: u64 },
    Ready(u8, u8),
    Game(GameAction),
    RequestData(DataType),
}

/// Something that happened in a room.
#[derive(Debug, PartialEq, Eq)]
pub enum Event {
    TurnStart,
    Attack(u8, u8),
    Run(u8, u8),
    Disconnected(String),
    Die(String),
    GameEnd(String),
}

/// A projection of the engine's state, sent on request or at match start.
#[derive(Debug, PartialEq, Eq)]
pub enum Data {
    Player { name: String, id: u64, position: (u8, u8) },
    PlayersOrder(Vec<u64>),
    PlayersName(HashMap<u64, String>),
    RoomList(HashMap<u64, String>),
}

/// What the engine sends to a client.
#[derive(Debug, PartialEq, Eq)]
pub enum Response {
    Error(Error),
    RoomCreated(u64),
    RoomJoined(u64),
    GameStarted,
    Event(Event),
    Sync(Data),
}

/// The view of an [`Event`].
pub enum EventView {
    TurnStart,
    Attack(u8, u8),
    Run(u8, u8),
    Disconnected(Seq<char>),
    Die(Seq<char>),
    GameEnd(Seq<char>),
}

/// The view of a [`Data`].
pub enum DataView {
    Player { name: Seq<char>, id: u64, position: (u8, u8) },
    PlayersOrder(Seq<u64>),
    PlayersName(Map<u64, Seq<char>>),
    RoomList(Map<u64, Seq<char>>),
}

/// The view of a [`Response`].
pub enum Message {
    Error(Error),
    RoomCreated(u64),
    RoomJoined(u64),
    GameStarted,
    Event(EventView),
    Sync(DataView),
}

/// The names of a directory as character sequences.
pub open spec fn names_view(m: Map<u64, String>) -> Map<u64, Seq<char>> {
    m.map_values(|s: String| s@)
}

impl View for Event {
    type V = EventView;

    open spec fn view(&self) -> EventView {
        match self {
            Event::TurnStart => EventView::TurnStart,
            Event::Attack(x, y) => EventView::Attack(*x, *y),
            Event::Run(x, y) => EventView::Run(*x, *y),
            Event::Disconnected(name) => EventView::Disconnected(name@),
            Event::Die(name) => EventView::Die(name@),
            Event::GameEnd(name) => EventView::GameEnd(name@),
        }
    }
}

impl View for Data {
    type V = DataView;

    open spec fn view(&self) -> DataView {
        match self {
            Data::Player { name, id, position } => DataView::Player {
                name: name@,
                id: *id,
                position: *position,
            },
            Data::PlayersOrder(order) => DataView::PlayersOrder(order@),
            Data::PlayersName(names) => DataView::PlayersName(names_view(names@)),
            Data::RoomList(names) => DataView::RoomList(names_view(names@)),
        }
    }
}

impl View for Response {
    type V = Message;

    open spec fn view(&self) -> Message {
        match self {
            Response::Error(e) => Message::Error(*e),
            Response::RoomCreated(id) => Message::RoomCreated(*id),
            Response::RoomJoined(id) => Message::RoomJoined(*id),
            Response::GameStarted => Message::GameStarted,
            Response::Event(e) => Message::Event(e@),
            Response::Sync(d) => Message::Sync(d@),
        }
    }
}

impl Clone for Action {
    /// A copy of the action; a room name keeps its characters.
    fn clone(&self) -> (r: Action)
        ensures
            r == *self,
    {
        match self {
            Action::CreateRoom { name } => Action::CreateRoom { name: name.clone() },
            Action::JoinRoom { id } => Action::JoinRoom { id: *id },
            Action::Ready(x, y) => Action::Ready(*x, *y),
            Action::Game(g) => Action::Game(*g),
            Action::RequestData(ty) => Action::RequestData(*ty),
        }
    }
}

impl Clone for Event {
    /// A copy with the same view.
    fn clone(&self) -> (r: Event)
        ensures
            r@ == self@,
    {
        match self {
            Event::TurnStart => Event::TurnStart,
            Event::Attack(x, y) => Event::Attack(*x, *y),
            Event::Run(x, y) => Event::Run(*x, *y),
            Event::Disconnected(name) => Event::Disconnected(name.clone()),
            Event::Die(name) => Event::Die(name.clone()),
            Event::GameEnd(name) => Event::GameEnd(name.clone()),
        }
    }
}

impl Clone for Data {
    /// A copy with the same view.
    fn clone(&self) -> (r: Data)
        ensures
            r@ == self@,
    {
        match self {
            Data::Player { name, id, position } => Data::Player {
                name: name.clone(),
                id: *id,
                position: *position,
            },
            Data::PlayersOrder(order) => Data::PlayersOrder(order.clone()),
            Data::PlayersName(names) => Data::PlayersName(names.clone()),
            Data::RoomList(names) => Data::RoomList(names.clone()),
        }
    }
}

impl Clone for Response {
    /// A copy with the same view.
    fn clone(&self) -> (r: Response)
        ensures
            r@ == self@,
    {
        match self {
            Response::Error(e) => Response::Error(*e),
            Response::RoomCreated(id) => Response::RoomCreated(*id),
            Response::RoomJoined(id) => Response::RoomJoined(*id),
            Response::GameStarted => Response::GameStarted,
            Response::Event(e) => Response::Event(e.clone()),
            Response::Sync(d) => Response::Sync(d.clone()),
        }
    }
}

} // verus!
