//! Session resources: the queue of pending commands and the gameplay state.

use vstd::prelude::*;

use crate::components::Direction;

verus! {

/// The ordered sequence of pending directional commands.  The input-capture
/// collaborator appends one command per directional key press; the turn
/// controller consumes at most one per tick, oldest first (first in, first
/// consumed).
pub struct InputQueue {
    pub keys_pressed: Vec<Direction>,
}

impl Default for InputQueue {
    /// An empty queue.
    fn default() -> (q: Self)
        ensures
            q.keys_pressed@ == Seq::<Direction>::empty(),
    {
        InputQueue { keys_pressed: Vec::new() }
    }
}

/// The phase of one session: a one-way transition from `Playing` to `Won`.
#[derive(Clone, Copy, PartialEq, Eq, Structural, Debug)]
pub enum GameplayState {
    Playing,
    Won,
}

/// The presentation name of a phase.
pub open spec fn state_name(st: GameplayState) -> Seq<char> {
    match st {
        GameplayState::Playing => "Playing"@,
        GameplayState::Won => "Won"@,
    }
}

impl Default for GameplayState {
    /// A session starts in the `Playing` phase.
    fn default() -> (st: Self)
        ensures
            st is Playing,
    {
        GameplayState::Playing
    }
}

impl GameplayState {
    /// The name of the phase, for on-screen status text.
    pub fn name(&self) -> (s: String)
        ensures
            s@ == state_name(*self),
    {
        match self {
            GameplayState::Playing => "Playing".to_owned(),
            GameplayState::Won => "Won".to_owned(),
        }
    }
}

/// Session state: the phase and the count of ticks in which at least one
/// entity actually relocated.
#[derive(Clone, Copy, PartialEq, Eq, Structural, Debug)]
pub struct Gameplay {
    pub state: GameplayState,
    pub moves_count: u32,
}

impl Default for Gameplay {
    /// A fresh session: `Playing`, zero moves.
    fn default() -> (g: Self)
        ensures
            g.state is Playing,
            g.moves_count == 0,
    {
        Gameplay { state: GameplayState::Playing, moves_count: 0 }
    }
}

} // verus!
