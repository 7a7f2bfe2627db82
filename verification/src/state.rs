use vstd::prelude::*;

verus! {

/// A player, token or contract address, named by its index in the arena's
/// address book (see `crate::arena::Arena::addresses`).
pub type AddressId = u64;

/// Ledgers below which the time-to-live of the arena's entries is extended.
pub const GAME_TTL_THRESHOLD: u32 = 518400;

/// Ledgers to which the time-to-live of the arena's entries is extended.
pub const GAME_TTL_EXTEND_TO: u32 = 1036800;

/// Fewest survivors with which a round can be started.
pub const MIN_ARENA_PARTICIPANTS: u32 = 2;

#[derive(Clone, Copy, Debug, PartialEq, Eq, Structural)]
pub struct ArenaConfig {
    pub round_speed_in_ledgers: u32,
    pub round_duration_seconds: u64,
    pub required_stake_amount: i128,
    pub max_rounds: u32,
}

#[derive(Clone, Copy, Debug, PartialEq, Eq, Structural)]
pub struct RoundState {
    pub round_number: u32,
    pub round_start_ledger: u32,
    pub round_deadline_ledger: u32,
    pub round_start: u64,
    pub round_deadline: u64,
    pub active: bool,
    pub total_submissions: u32,
    pub timed_out: bool,
    pub finished: bool,
}

/// Life cycle of an arena.
#[derive(Clone, Copy, Debug, PartialEq, Eq, Structural)]
pub enum ArenaState {
    Pending,
    Active,
    Completed,
    Cancelled,
}

impl ArenaState {
    /// Whether the arena has reached a state that it never leaves.
    pub fn is_terminal_state(&self) -> (r: bool)
        ensures
            r == (*self == ArenaState::Completed || *self == ArenaState::Cancelled),
    {
        match self {
            ArenaState::Completed => true,
            ArenaState::Cancelled => true,
            _ => false,
        }
    }
}

#[derive(Clone, Copy, Debug, PartialEq, Eq, Structural)]
pub struct ArenaStateView {
    pub survivors_count: u32,
    pub max_capacity: u32,
    pub round_number: u32,
    pub current_stake: i128,
    pub potential_payout: i128,
}

#[derive(Clone, Copy, Debug, PartialEq, Eq, Structural)]
pub struct UserStateView {
    pub is_active: bool,
    pub has_won: bool,
}

#[derive(Clone, Copy, Debug, PartialEq, Eq, Structural)]
pub struct FullStateView {
    pub survivors_count: u32,
    pub max_capacity: u32,
    pub round_number: u32,
    pub current_stake: i128,
    pub potential_payout: i128,
    pub is_active: bool,
    pub has_won: bool,
}

/// Descriptive data of an arena.
#[derive(Clone, Debug, PartialEq, Eq)]
pub struct ArenaMetadata {
    pub arena_id: u64,
    pub name: String,
    pub description: Option<String>,
    pub host: AddressId,
    pub created_at: u64,
}

/// Everything that a client reads about an arena at once.
#[derive(Clone, Debug, PartialEq, Eq)]
pub struct ArenaSnapshot {
    pub arena_id: u64,
    pub state: ArenaState,
    pub current_round: u32,
    pub round_deadline: u64,
    pub total_players: u32,
    pub survivors: Vec<AddressId>,
    pub eliminated: Vec<AddressId>,
    pub prize_pool: i128,
    pub yield_earned: i128,
    pub winner: Option<AddressId>,
    pub config: ArenaConfig,
}

/// Keys of the arena's entries in contract storage.
#[derive(Clone, Copy, Debug, PartialEq, Eq, Structural)]
pub enum DataKey {
    Config,
    Round,
    RoundChoices(u32),
    Commitment(u32, AddressId),
    Survivor(AddressId),
    Eliminated(AddressId),
    PrizeClaimed(AddressId),
    Winner(AddressId),
    AllPlayers,
    Refunded(AddressId),
    State,
    Metadata(u64),
    ContractAdmin,
    FactoryAddress,
    ArenaId,
    YieldEarned,
    UpgradeHash,
    UpgradeTimestamp,
}

} // verus!
