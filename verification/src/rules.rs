use vstd::prelude::*;
use crate::arena::{
    address_id_of, bump_spec, choice_of, choices_of_round, commitment_of, finished_of, first_index, is_survivor,
    prize_of, round_keys, set_state_spec, state_of, survivor_count_of, yield_of, ArenaModel,
};
use crate::effects::EffectView;
use crate::errors::ArenaError;
use crate::events::{Choice, ChoiceSubmitted, PlayerEliminated, WinnerDeclared, EVENT_VERSION};
use crate::math::{is_tie, surviving_side_spec, trunc_div, trunc_rem};
use crate::state::{AddressId, ArenaState, DataKey, RoundState, MIN_ARENA_PARTICIPANTS};

verus! {

/// What an operation does when it succeeds: the arena afterwards, the effects
/// it leaves to the host, and what it returns. On an error nothing changes.
pub type Outcome<T> = Result<(ArenaModel, Seq<EffectView>, T), ArenaError>;

/// `r`, `after` and `eff_after` are what an operation with outcome `o` gives
/// on `before` and `eff_before`: on success the new arena, the effects
/// appended and the value; on an error the error, with nothing changed.
pub open spec fn applied<T>(
    o: Outcome<T>,
    r: Result<T, ArenaError>,
    before: ArenaModel,
    after: ArenaModel,
    eff_before: Seq<EffectView>,
    eff_after: Seq<EffectView>,
) -> bool {
    match o {
        Ok((m, e, v)) => r == Ok::<T, ArenaError>(v) && after == m && eff_after == eff_before + e,
        Err(err) => r == Err::<T, ArenaError>(err) && after == before && eff_after == eff_before,
    }
}

// ── Round choices ─────────────────────────────────────────────────────────────

/// Storing `choices` as the choices of round `round`.
pub open spec fn set_round_choices_spec(m: ArenaModel, round: u32, choices: Seq<(AddressId, Choice)>) -> ArenaModel {
    let i = first_index(round_keys(m.round_choices), round);
    if i >= 0 {
        ArenaModel { round_choices: m.round_choices.update(i, (round, choices)), ..m }
    } else {
        ArenaModel { round_choices: m.round_choices.push((round, choices)), ..m }
    }
}

/// How many entries of `s` picked `c`.
pub open spec fn count_choice(s: Seq<(AddressId, Choice)>, c: Choice) -> nat
    decreases s.len(),
{
    if s.len() == 0 {
        0
    } else {
        count_choice(s.drop_last(), c) + if s.last().1 == c { 1nat } else { 0nat }
    }
}

// ── Resolving a round ─────────────────────────────────────────────────────────

/// Where a pass over the players stands: the survivor and elimination flags,
/// the effects so far and the players eliminated so far, in order.
#[verifier::ext_equal]
pub struct Sweep {
    pub survivors: Seq<bool>,
    pub eliminated: Seq<bool>,
    pub effects: Seq<EffectView>,
    pub gone: Seq<AddressId>,
}

/// One player in the pass: a survivor who did not reveal the surviving side
/// (or any side, or when no side survives) is eliminated.
pub open spec fn sweep_one(
    acc: Sweep,
    p: AddressId,
    side: Option<Choice>,
    choices: Seq<(AddressId, Choice)>,
    round_number: u32,
) -> Sweep {
    if !(p < acc.survivors.len() && acc.survivors[p as int]) {
        acc
    } else {
        let pc = choice_of(choices, p);
        if keeps(side, pc) {
            acc
        } else {
            let choice_made = match pc {
                Some(c) => c,
                None => Choice::Heads,
            };
            Sweep {
                survivors: acc.survivors.update(p as int, false),
                eliminated: acc.eliminated.update(p as int, true),
                effects: acc.effects + seq![
                    bump_spec(DataKey::Eliminated(p)),
                    EffectView::PlayerEliminated(
                        PlayerEliminated { arena_id: 0, round: round_number, player: p, choice_made },
                    ),
                ],
                gone: acc.gone.push(p),
            }
        }
    }
}

/// The pass over `players`, in order.
pub open spec fn sweep(
    acc: Sweep,
    players: Seq<AddressId>,
    side: Option<Choice>,
    choices: Seq<(AddressId, Choice)>,
    round_number: u32,
) -> Sweep
    decreases players.len(),
{
    if players.len() == 0 {
        acc
    } else {
        sweep_one(sweep(acc, players.drop_last(), side, choices, round_number), players.last(), side, choices, round_number)
    }
}

/// The players of `players` whose survivor flag is set, in order.
pub open spec fn survivor_list(flags: Seq<bool>, players: Seq<AddressId>) -> Seq<AddressId>
    decreases players.len(),
{
    if players.len() == 0 {
        seq![]
    } else {
        let rest = survivor_list(flags, players.drop_last());
        let p = players.last();
        if p < flags.len() && flags[p as int] {
            rest.push(p)
        } else {
            rest
        }
    }
}

/// Transfers of `amount` of `token` to each of `recipients`, in order.
pub open spec fn transfers(token: AddressId, recipients: Seq<AddressId>, amount: i128) -> Seq<EffectView> {
    recipients.map_values(|p: AddressId| EffectView::Transfer { token, to: p, amount })
}

/// `prize` shared equally among `recipients`: one share each, and what is left
/// over, when positive, to the first of them.
pub open spec fn share_out(token: AddressId, recipients: Seq<AddressId>, prize: i128) -> Seq<EffectView> {
    let n = recipients.len() as int;
    let share = trunc_div(prize as int, n) as i128;
    let dust = trunc_rem(prize as int, n) as i128;
    transfers(token, recipients, share) + if dust > 0 {
        seq![EffectView::Transfer { token, to: recipients[0], amount: dust }]
    } else {
        seq![]
    }
}

/// Declaring the winner: with exactly one survivor among the players, that
/// player is marked winner, the win is announced, the payout is requested and
/// the arena completes; otherwise nothing happens.
pub open spec fn declare_winner_spec(m: ArenaModel) -> (ArenaModel, Seq<EffectView>) {
    let survivors = survivor_list(m.survivors, m.all_players);
    if survivors.len() != 1 {
        (m, seq![])
    } else {
        let w = survivors[0];
        let m1 = ArenaModel { winners: m.winners.update(w as int, true), ..m };
        let total_rounds = match m.round {
            Some(r) => r.round_number,
            None => 0,
        };
        let e1 = seq![
            bump_spec(DataKey::Winner(w)),
            EffectView::WinnerDeclared(
                WinnerDeclared {
                    arena_id: 0,
                    winner: w,
                    prize_pool: prize_of(m),
                    yield_earned: yield_of(m),
                    total_rounds,
                },
            ),
            EffectView::Payout { winner: w, prize_pool: prize_of(m), yield_earned: yield_of(m) },
        ];
        let (m2, e2) = set_state_spec(m1, ArenaState::Completed);
        (m2, e1 + e2)
    }
}

/// A round in which everybody was eliminated: a positive prize pool is shared
/// among all players and emptied, and the arena completes. With no players,
/// nothing happens.
pub open spec fn handle_draw_spec(m: ArenaModel) -> Result<(ArenaModel, Seq<EffectView>), ArenaError> {
    if m.all_players.len() == 0 {
        Ok((m, seq![]))
    } else if prize_of(m) > 0 {
        match m.token {
            None => Err(ArenaError::TokenNotSet),
            Some(token) => {
                let m1 = ArenaModel { prize_pool: Some(0i128), ..m };
                let (m2, e2) = set_state_spec(m1, ArenaState::Completed);
                Ok((m2, share_out(token, m.all_players, prize_of(m)) + e2))
            },
        }
    } else {
        let (m2, e2) = set_state_spec(m, ArenaState::Completed);
        Ok((m2, e2))
    }
}


/// Closing the arena after its last allowed round: a positive prize pool is
/// shared among the surviving players, if any, and emptied; the game and the
/// round are marked finished and the arena completes.
pub open spec fn max_rounds_draw_spec(m: ArenaModel, round: RoundState) -> Outcome<RoundState> {
    let survivors = survivor_list(m.survivors, m.all_players);
    let paid: Result<(ArenaModel, Seq<EffectView>), ArenaError> = if survivors.len() > 0 && prize_of(m) > 0 {
        match m.token {
            None => Err(ArenaError::TokenNotSet),
            Some(token) => Ok((ArenaModel { prize_pool: Some(0i128), ..m }, share_out(token, survivors, prize_of(m)))),
        }
    } else {
        Ok((m, seq![]))
    };
    match paid {
        Err(e) => Err(e),
        Ok((m1, e1)) => {
            let round2 = RoundState { finished: true, ..round };
            let m2 = ArenaModel { game_finished: Some(true), round: Some(round2), ..m1 };
            let (m3, e3) = set_state_spec(m2, ArenaState::Completed);
            Ok((m3, e1 + e3, round2))
        },
    }
}

/// The initial position of the pass over the players.
pub open spec fn sweep_start(m: ArenaModel) -> Sweep {
    Sweep { survivors: m.survivors, eliminated: m.eliminated, effects: seq![], gone: seq![] }
}

/// The side that survives round `round_number` by its revealed choices,
/// `random` deciding a tie.
pub open spec fn vote_side(m: ArenaModel, round_number: u32, random: u64) -> Option<Choice> {
    let choices = choices_of_round(m, round_number);
    surviving_side_spec(
        count_choice(choices, Choice::Heads) as u32,
        count_choice(choices, Choice::Tails) as u32,
        random,
    )
}

/// Whether a surviving player who revealed `pc` stays in the game when `side`
/// survives: only by having revealed that side.
pub open spec fn keeps(side: Option<Choice>, pc: Option<Choice>) -> bool {
    match (side, pc) {
        (Some(s), Some(c)) => c == s,
        _ => false,
    }
}

/// Resolving a round by its revealed choices, `side` being the side that
/// survives (see `vote_side`): every surviving player who did not reveal that
/// side is eliminated; the stored survivor count drops by the
/// number eliminated (not below zero); a count of one declares the winner, a
/// count of none is a draw, and either finishes the game; the round is marked finished, a
/// finished game completes the arena, and the resolution is announced.
pub open spec fn resolve_by_vote_spec(m: ArenaModel, round: RoundState, side: Option<Choice>) -> Outcome<RoundState> {
    let choices = choices_of_round(m, round.round_number);
    let heads = count_choice(choices, Choice::Heads) as u32;
    let tails = count_choice(choices, Choice::Tails) as u32;
    let sw = sweep(sweep_start(m), m.all_players, side, choices, round.round_number);
    let count = survivor_count_of(m);
    let updated = if count >= sw.gone.len() { (count - sw.gone.len()) as u32 } else { 0u32 };
    let m1 = ArenaModel {
        survivors: sw.survivors,
        eliminated: sw.eliminated,
        survivor_count: Some(updated),
        game_finished: if updated <= 1 { Some(true) } else { m.game_finished },
        ..m
    };
    let after: Result<(ArenaModel, Seq<EffectView>), ArenaError> = if updated == 1 {
        Ok(declare_winner_spec(m1))
    } else if updated == 0 {
        handle_draw_spec(m1)
    } else {
        Ok((m1, seq![]))
    };
    match after {
        Err(e) => Err(e),
        Ok((m2, e2)) => {
            let round2 = RoundState { finished: true, ..round };
            let m3 = ArenaModel { round: Some(round2), ..m2 };
            let (m4, e4) = if finished_of(m3) {
                set_state_spec(m3, ArenaState::Completed)
            } else {
                (m3, seq![])
            };
            let resolved = EffectView::RoundResolved {
                arena_id: 0,
                round: round.round_number,
                heads_count: heads,
                tails_count: tails,
                eliminated: sw.gone,
            };
            Ok((m4, sw.effects + e2 + e4 + seq![resolved], round2))
        },
    }
}

/// Resolving the current round: once the round number has reached the
/// configured maximum, the arena closes as a draw among the survivors;
/// otherwise the round is resolved by its votes.
pub open spec fn resolve_internal_spec(m: ArenaModel, random: u64) -> Outcome<RoundState> {
    match (m.round, m.config) {
        (Some(round), Some(config)) => {
            if round.round_number > 0 && round.round_number >= config.max_rounds {
                max_rounds_draw_spec(m, round)
            } else {
                resolve_by_vote_spec(m, round, vote_side(m, round.round_number, random))
            }
        },
        _ => Err(ArenaError::NotInitialized),
    }
}

/// Resolving the current round needs a drawn number: the round is resolved by
/// its votes (the maximum round has not been reached), and they tie.
pub open spec fn resolve_internal_draws_spec(m: ArenaModel) -> bool {
    match (m.round, m.config) {
        (Some(round), Some(config)) => !(round.round_number > 0 && round.round_number >= config.max_rounds) && {
            let choices = choices_of_round(m, round.round_number);
            is_tie(count_choice(choices, Choice::Heads) as u32, count_choice(choices, Choice::Tails) as u32)
        },
        _ => false,
    }
}

// ── Starting, committing, revealing, closing ──────────────────────────────────

/// Starting a round at ledger `sequence` and time `timestamp` passes every
/// check and goes on to number the next round: the arena is pending or
/// active and not finished, the last round is over, enough players survive,
/// and both deadlines fit their ranges.
pub open spec fn start_round_increments(m: ArenaModel, sequence: u32, timestamp: u64) -> bool {
    let st = state_of(m);
    &&& st == ArenaState::Pending || st == ArenaState::Active
    &&& !finished_of(m)
    &&& m.round matches Some(round) && !round.active
    &&& survivor_count_of(m) >= MIN_ARENA_PARTICIPANTS
    &&& m.config matches Some(config) && sequence + 2 * config.round_speed_in_ledgers <= u32::MAX
        && timestamp + config.round_duration_seconds <= u64::MAX
}

/// Starting the next round at ledger `sequence` and time `timestamp`.
pub open spec fn start_round_spec(m: ArenaModel, sequence: u32, timestamp: u64) -> Outcome<RoundState> {
    let st = state_of(m);
    if st != ArenaState::Pending && st != ArenaState::Active {
        Err(ArenaError::GameAlreadyFinished)
    } else if finished_of(m) {
        Err(ArenaError::GameAlreadyFinished)
    } else {
        match m.round {
            None => Err(ArenaError::NotInitialized),
            Some(round) => if round.active {
                Err(ArenaError::RoundAlreadyActive)
            } else if survivor_count_of(m) < MIN_ARENA_PARTICIPANTS {
                Err(ArenaError::NotEnoughPlayers)
            } else {
                match m.config {
                    None => Err(ArenaError::NotInitialized),
                    Some(config) => {
                        let commit_deadline = sequence + config.round_speed_in_ledgers;
                        let reveal_deadline = commit_deadline + config.round_speed_in_ledgers;
                        let deadline = timestamp + config.round_duration_seconds;
                        if commit_deadline > u32::MAX || reveal_deadline > u32::MAX || deadline > u64::MAX {
                            Err(ArenaError::RoundDeadlineOverflow)
                        } else {
                            let round2 = RoundState {
                                round_number: (round.round_number + 1) as u32,
                                round_start_ledger: sequence,
                                round_deadline_ledger: commit_deadline as u32,
                                round_start: timestamp,
                                round_deadline: deadline as u64,
                                active: true,
                                total_submissions: 0,
                                timed_out: false,
                                finished: false,
                            };
                            let m1 = ArenaModel { round: Some(round2), ..m };
                            let (m2, e2) = if round2.round_number == 1 {
                                set_state_spec(m1, ArenaState::Active)
                            } else {
                                (m1, seq![])
                            };
                            let started = EffectView::RoundStarted {
                                round_number: round2.round_number,
                                start_ledger: sequence,
                                commit_deadline_ledger: commit_deadline as u32,
                                reveal_deadline_ledger: reveal_deadline as u32,
                                version: EVENT_VERSION,
                            };
                            Ok((m2, e2 + seq![started], round2))
                        }
                    },
                }
            },
        }
    }
}

/// Committing, at ledger `sequence`, the sealed choice `commitment` of the
/// player with address `player` for round `round_number`.
pub open spec fn commit_choice_spec(
    m: ArenaModel,
    sequence: u32,
    player: Seq<u8>,
    round_number: u32,
    commitment: Seq<u8>,
) -> Outcome<()> {
    match m.round {
        None => Err(ArenaError::NotInitialized),
        Some(round) => if !round.active || round.round_number != round_number {
            Err(ArenaError::WrongRoundNumber)
        } else if sequence > round.round_deadline_ledger {
            Err(ArenaError::CommitDeadlinePassed)
        } else {
            match address_id_of(m, player) {
                None => Err(ArenaError::NotASurvivor),
                Some(p) => if !is_survivor(m, p) {
                    Err(ArenaError::NotASurvivor)
                } else if commitment_of(m, round_number, p) is Some {
                    Err(ArenaError::AlreadyCommitted)
                } else {
                    Ok((
                        ArenaModel { commitments: m.commitments.push((round_number, p, commitment)), ..m },
                        seq![bump_spec(DataKey::Commitment(round_number, p))],
                        (),
                    ))
                },
            }
        },
    }
}

/// The bytes that a commitment seals: a byte for the choice (0 for heads, 1
/// for tails), the nonce, and the player's address.
pub open spec fn commitment_preimage_spec(choice: Choice, nonce: Seq<u8>, player: Seq<u8>) -> Seq<u8> {
    let b: u8 = match choice {
        Choice::Heads => 0,
        Choice::Tails => 1,
    };
    seq![b] + nonce + player
}

/// The checks of a reveal at ledger `sequence` that come before the seal is
/// opened; they give the player's index and stored commitment.
pub open spec fn reveal_checks_spec(m: ArenaModel, sequence: u32, player: Seq<u8>, round_number: u32) -> Result<
    (AddressId, Seq<u8>),
    ArenaError,
> {
    match m.round {
        None => Err(ArenaError::NotInitialized),
        Some(round) => if !round.active || round.round_number != round_number {
            Err(ArenaError::WrongRoundNumber)
        } else if sequence <= round.round_deadline_ledger {
            Err(ArenaError::SubmissionWindowClosed)
        } else {
            match m.config {
                None => Err(ArenaError::NotInitialized),
                Some(config) => if round.round_deadline_ledger + config.round_speed_in_ledgers > u32::MAX {
                    Err(ArenaError::RoundDeadlineOverflow)
                } else if sequence > round.round_deadline_ledger + config.round_speed_in_ledgers {
                    Err(ArenaError::RevealDeadlinePassed)
                } else {
                    match address_id_of(m, player) {
                        None => Err(ArenaError::NoCommitment),
                        Some(p) => match commitment_of(m, round_number, p) {
                            None => Err(ArenaError::NoCommitment),
                            Some(c) => Ok((p, c)),
                        },
                    }
                },
            }
        },
    }
}

/// Recording the choice of player `p` whose seal `digest` matched the stored
/// `commitment`; the result says whether every survivor has now revealed, in
/// which case the round is closed for resolution.
pub open spec fn reveal_record_spec(
    m: ArenaModel,
    round: RoundState,
    p: AddressId,
    choice: Choice,
    digest: Seq<u8>,
    commitment: Seq<u8>,
) -> Outcome<bool> {
    if digest != commitment {
        Err(ArenaError::CommitmentMismatch)
    } else {
        let choices = choices_of_round(m, round.round_number);
        if choice_of(choices, p) is Some {
            Err(ArenaError::SubmissionAlreadyExists)
        } else {
            let m1 = set_round_choices_spec(m, round.round_number, choices.push((p, choice)));
            let round2 = RoundState { total_submissions: (round.total_submissions + 1) as u32, ..round };
            let e = seq![
                bump_spec(DataKey::RoundChoices(round.round_number)),
                EffectView::ChoiceSubmitted(ChoiceSubmitted { arena_id: 0, round: round.round_number, player: p }),
            ];
            let count = survivor_count_of(m);
            if count > 0 && round2.total_submissions >= count {
                Ok((ArenaModel { round: Some(RoundState { active: false, ..round2 }), ..m1 }, e, true))
            } else {
                Ok((ArenaModel { round: Some(round2), ..m1 }, e, false))
            }
        }
    }
}

/// Revealing at ledger `sequence` the choice of the player with address
/// `player`, whose seal opens to `digest`; when every survivor has revealed,
/// the round is resolved with `random` deciding a tie.
pub open spec fn reveal_choice_spec(
    m: ArenaModel,
    sequence: u32,
    player: Seq<u8>,
    round_number: u32,
    choice: Choice,
    digest: Seq<u8>,
    random: u64,
) -> Outcome<()> {
    match reveal_checks_spec(m, sequence, player, round_number) {
        Err(e) => Err(e),
        Ok((p, c)) => match reveal_record_spec(m, m.round->0, p, choice, digest, c) {
            Err(e) => Err(e),
            Ok((m1, e1, due)) => if due {
                match resolve_internal_spec(m1, random) {
                    Err(e) => Err(e),
                    Ok((m2, e2, _)) => Ok((m2, e1 + e2, ())),
                }
            } else {
                Ok((m1, e1, ()))
            },
        },
    }
}

/// A reveal at ledger `sequence` whose seal opens to `digest` needs a drawn
/// number: it is recorded, it completes the round, and resolving the round
/// then needs one.
pub open spec fn reveal_draws_spec(
    m: ArenaModel,
    sequence: u32,
    player: Seq<u8>,
    round_number: u32,
    choice: Choice,
    digest: Seq<u8>,
) -> bool {
    match reveal_checks_spec(m, sequence, player, round_number) {
        Err(_) => false,
        Ok((p, c)) => match reveal_record_spec(m, m.round->0, p, choice, digest, c) {
            Err(_) => false,
            Ok((m1, _, due)) => due && resolve_internal_draws_spec(m1),
        },
    }
}

/// Closing the active round at ledger `sequence`, once its commit deadline has
/// passed.
pub open spec fn timeout_round_spec(m: ArenaModel, sequence: u32) -> Outcome<RoundState> {
    match m.round {
        None => Err(ArenaError::NotInitialized),
        Some(round) => if !round.active {
            Err(ArenaError::NoActiveRound)
        } else if sequence <= round.round_deadline_ledger {
            Err(ArenaError::RoundStillOpen)
        } else {
            let round2 = RoundState { active: false, timed_out: true, ..round };
            Ok((
                ArenaModel { round: Some(round2), ..m },
                seq![
                    EffectView::RoundTimedOut {
                        round_number: round2.round_number,
                        total_submissions: round2.total_submissions,
                        version: EVENT_VERSION,
                    },
                ],
                round2,
            ))
        },
    }
}

/// Resolving the current round at ledger `sequence`: an active round is first
/// closed as timed out, which its commit deadline must allow; a finished
/// round is not resolved again.
pub open spec fn resolve_round_spec(m: ArenaModel, sequence: u32, random: u64) -> Outcome<RoundState> {
    match m.round {
        None => Err(ArenaError::NotInitialized),
        Some(round) => if round.finished {
            Err(ArenaError::NoActiveRound)
        } else if round.active {
            if sequence <= round.round_deadline_ledger {
                Err(ArenaError::RoundStillOpen)
            } else {
                resolve_internal_spec(
                    ArenaModel { round: Some(RoundState { active: false, timed_out: true, ..round }), ..m },
                    random,
                )
            }
        } else {
            resolve_internal_spec(m, random)
        },
    }
}


/// Resolving the current round at ledger `sequence` needs a drawn number: the
/// round gets past the checks of `resolve_round_spec` and resolving it then
/// needs one.
pub open spec fn resolve_round_draws_spec(m: ArenaModel, sequence: u32) -> bool {
    match m.round {
        None => false,
        Some(round) => !round.finished && (round.active ==> sequence > round.round_deadline_ledger)
            && resolve_internal_draws_spec(m),
    }
}

} // verus!
