//! An authoritative, single-writer session engine for a turn-based
//! multiplayer game.
//!
//! The engine owns every player record and every room. Commands are applied
//! one at a time; each command leaves its responses in the mailboxes of the
//! players concerned, from where a transport drains them.

pub mod chance;
pub mod consistency;
pub mod game;
pub mod ids;
pub mod laws;
pub mod model;
pub mod player;
pub mod protocol;
pub mod room;
pub mod utils;
