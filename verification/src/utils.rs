//! Small helpers shared by the engine: grid distance and the commands that
//! a transport hands to the engine.

use crate::protocol::Action;
use vstd::prelude::*;

verus! {

/// A command for the engine: a player has connected under a name, a player
/// has issued an action, or a player's connection is gone.
#[derive(Debug)]
pub enum In {
    NewPlayer(String),
    PlayerAction { player: u64, action: Action },
    Disconnected(u64),
}

/// Absolute difference of two coordinates.
pub open spec fn gap(a: u8, b: u8) -> nat {
    if a <= b {
        (b - a) as nat
    } else {
        (a - b) as nat
    }
}

/// Manhattan distance between two grid positions.
pub open spec fn manhattan(a: (u8, u8), b: (u8, u8)) -> nat {
    gap(a.0, b.0) + gap(a.1, b.1)
}

/// A metric on positions.
pub trait Distance {
    /// The distance that `distance` computes.
    spec fn distance_spec(&self, other: &Self) -> nat;

    fn distance(&self, other: &Self) -> (d: usize)
        ensures
            d == self.distance_spec(other),
    ;
}

impl Distance for (u8, u8) {
    open spec fn distance_spec(&self, other: &Self) -> nat {
        manhattan(*self, *other)
    }

    fn distance(&self, other: &Self) -> (d: usize) {
        let dx: u8 = if self.0 <= other.0 {
            other.0 - self.0
        } else {
            self.0 - other.0
        };
        let dy: u8 = if self.1 <= other.1 {
            other.1 - self.1
        } else {
            self.1 - other.1
        };
        let wide_x: usize = dx.into();
        let wide_y: usize = dy.into();
        wide_x + wide_y
    }
}

} // verus!
