use vstd::prelude::*;
use crate::events::{ChoiceSubmitted, PlayerEliminated, RoundResolved, WinnerDeclared};
use crate::state::{AddressId, ArenaState, DataKey};

verus! {

/// Work that an arena operation leaves to the contract host: token transfers
/// out of the contract, calls to other contracts, storage lifetime extensions
/// and published events, in the order in which they are to be performed.
#[derive(Debug, PartialEq, Eq)]
pub enum Effect {
    /// Transfer `amount` of the `token` contract from this contract to `to`.
    Transfer { token: AddressId, to: AddressId, amount: i128 },
    /// Tell the factory contract the arena's new state.
    NotifyFactory { factory: AddressId, arena_id: u64, state: ArenaState },
    /// Extend the lifetime of a persistent storage entry.
    ExtendPersistentTtl { key: DataKey },
    /// Extend the lifetime of the contract's instance storage.
    ExtendInstanceTtl,
    /// Ask the payout contract to pay the winner.
    Payout { winner: AddressId, prize_pool: i128, yield_earned: i128 },
    /// Event: a round started.
    RoundStarted {
        round_number: u32,
        start_ledger: u32,
        commit_deadline_ledger: u32,
        reveal_deadline_ledger: u32,
        version: u32,
    },
    /// Event: a round was closed by its deadline.
    RoundTimedOut { round_number: u32, total_submissions: u32, version: u32 },
    /// Event: a player revealed a choice.
    ChoiceSubmitted(ChoiceSubmitted),
    /// Event: a player was eliminated.
    PlayerEliminated(PlayerEliminated),
    /// Event: a round was resolved.
    RoundResolved(RoundResolved),
    /// Event: the arena has a winner.
    WinnerDeclared(WinnerDeclared),
}

/// What an `Effect` means, with its lists as sequences.
pub enum EffectView {
    Transfer { token: AddressId, to: AddressId, amount: i128 },
    NotifyFactory { factory: AddressId, arena_id: u64, state: ArenaState },
    ExtendPersistentTtl { key: DataKey },
    ExtendInstanceTtl,
    Payout { winner: AddressId, prize_pool: i128, yield_earned: i128 },
    RoundStarted {
        round_number: u32,
        start_ledger: u32,
        commit_deadline_ledger: u32,
        reveal_deadline_ledger: u32,
        version: u32,
    },
    RoundTimedOut { round_number: u32, total_submissions: u32, version: u32 },
    ChoiceSubmitted(ChoiceSubmitted),
    PlayerEliminated(PlayerEliminated),
    RoundResolved { arena_id: u64, round: u32, heads_count: u32, tails_count: u32, eliminated: Seq<AddressId> },
    WinnerDeclared(WinnerDeclared),
}

impl View for Effect {
    type V = EffectView;

    open spec fn view(&self) -> EffectView {
        match self {
            Effect::Transfer { token, to, amount } => EffectView::Transfer { token: *token, to: *to, amount: *amount },
            Effect::NotifyFactory { factory, arena_id, state } => EffectView::NotifyFactory {
                factory: *factory,
                arena_id: *arena_id,
                state: *state,
            },
            Effect::ExtendPersistentTtl { key } => EffectView::ExtendPersistentTtl { key: *key },
            Effect::ExtendInstanceTtl => EffectView::ExtendInstanceTtl,
            Effect::Payout { winner, prize_pool, yield_earned } => EffectView::Payout {
                winner: *winner,
                prize_pool: *prize_pool,
                yield_earned: *yield_earned,
            },
            Effect::RoundStarted {
                round_number,
                start_ledger,
                commit_deadline_ledger,
                reveal_deadline_ledger,
                version,
            } => EffectView::RoundStarted {
                round_number: *round_number,
                start_ledger: *start_ledger,
                commit_deadline_ledger: *commit_deadline_ledger,
                reveal_deadline_ledger: *reveal_deadline_ledger,
                version: *version,
            },
            Effect::RoundTimedOut { round_number, total_submissions, version } => EffectView::RoundTimedOut {
                round_number: *round_number,
                total_submissions: *total_submissions,
                version: *version,
            },
            Effect::ChoiceSubmitted(e) => EffectView::ChoiceSubmitted(*e),
            Effect::PlayerEliminated(e) => EffectView::PlayerEliminated(*e),
            Effect::RoundResolved(e) => EffectView::RoundResolved {
                arena_id: e.arena_id,
                round: e.round,
                heads_count: e.heads_count,
                tails_count: e.tails_count,
                eliminated: e.eliminated@,
            },
            Effect::WinnerDeclared(e) => EffectView::WinnerDeclared(*e),
        }
    }
}

/// The meanings of a list of effects.
pub open spec fn views(s: Seq<Effect>) -> Seq<EffectView> {
    s.map_values(|e: Effect| e@)
}

/// Appends one effect to the list.
pub fn emit(effects: &mut Vec<Effect>, e: Effect)
    ensures
        views(final(effects)@) == views(old(effects)@).push(e@),
{
    let ghost e_view = e@;
    effects.push(e);
    assert(views(effects@) =~= views(old(effects)@).push(e_view));
}

/// Appends all of `more` to `effects`, leaving `more` empty.
pub fn emit_all(effects: &mut Vec<Effect>, more: &mut Vec<Effect>)
    ensures
        views(final(effects)@) == views(old(effects)@) + views(old(more)@),
        final(more)@.len() == 0,
{
    effects.append(more);
    assert(views(effects@) =~= views(old(effects)@) + views(old(more)@));
}

} // verus!
