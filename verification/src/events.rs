use vstd::prelude::*;
use crate::state::{AddressId, ArenaState};

verus! {

/// Version number carried by the arena's tuple-shaped events.
pub const EVENT_VERSION: u32 = 1;

/// The side of the coin that a player picks in a round.
#[derive(Clone, Copy, Debug, PartialEq, Eq, Structural)]
pub enum Choice {
    Heads,
    Tails,
}

#[derive(Clone, Copy, Debug, PartialEq, Eq, Structural)]
pub struct PlayerJoined {
    pub arena_id: u64,
    pub player: AddressId,
    pub entry_fee: i128,
}

#[derive(Clone, Copy, Debug, PartialEq, Eq, Structural)]
pub struct ChoiceSubmitted {
    pub arena_id: u64,
    pub round: u32,
    pub player: AddressId,
}

#[derive(Clone, Debug, PartialEq, Eq)]
pub struct RoundResolved {
    pub arena_id: u64,
    pub round: u32,
    pub heads_count: u32,
    pub tails_count: u32,
    pub eliminated: Vec<AddressId>,
}

#[derive(Clone, Copy, Debug, PartialEq, Eq, Structural)]
pub struct PlayerEliminated {
    pub arena_id: u64,
    pub round: u32,
    pub player: AddressId,
    pub choice_made: Choice,
}

#[derive(Clone, Copy, Debug, PartialEq, Eq, Structural)]
pub struct WinnerDeclared {
    pub arena_id: u64,
    pub winner: AddressId,
    pub prize_pool: i128,
    pub yield_earned: i128,
    pub total_rounds: u32,
}

#[derive(Clone, Debug, PartialEq, Eq)]
pub struct ArenaCancelled {
    pub arena_id: u64,
    pub reason: String,
}

#[derive(Clone, Copy, Debug, PartialEq, Eq, Structural)]
pub struct ArenaStateChanged {
    pub old_state: ArenaState,
    pub new_state: ArenaState,
}

} // verus!
