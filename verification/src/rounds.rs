use vstd::prelude::*;
use crate::arena::{
    address_id, bump, bump_spec, choice_of, choices_of_round, commitment_keys, commitment_of, copy_vec, first_index,
    get_config, get_round, get_state, lemma_first_index_at, lemma_first_index_generic, player_keys, round_keys,
    set_state, set_state_spec, wf, Arena, ArenaModel, Commitment, RoundChoices,
};
use crate::effects::{emit, emit_all, views, Effect, EffectView};
use crate::errors::ArenaError;
use crate::events::{Choice, ChoiceSubmitted, PlayerEliminated, RoundResolved, WinnerDeclared, EVENT_VERSION};
use crate::math::{choose_surviving_side, split_prize, surviving_side_spec};
use crate::host::{sha256, sha256_digest};
use crate::laws::lemma_choices_after_set;
use soroban_sdk::Env;
use crate::rules::{
    applied, commit_choice_spec, commitment_preimage_spec, count_choice, declare_winner_spec, handle_draw_spec,
    max_rounds_draw_spec, resolve_by_vote_spec, start_round_increments, resolve_internal_spec, resolve_round_spec, reveal_checks_spec,
    reveal_choice_spec, reveal_draws_spec, resolve_internal_draws_spec, resolve_round_draws_spec, reveal_record_spec, set_round_choices_spec, share_out, start_round_spec, survivor_list, sweep,
    sweep_one, sweep_start, timeout_round_spec, transfers, Sweep,
};
use crate::state::{AddressId, ArenaState, DataKey, RoundState, MIN_ARENA_PARTICIPANTS};

verus! {

// ── Operations ────────────────────────────────────────────────────────────────

/// Where the choices of round `round` are kept.
fn find_round_slot(arena: &Arena, round: u32) -> (r: Option<usize>)
    ensures
        match r {
            Some(i) => i < arena.round_choices.len() && i as int == first_index(round_keys(arena@.round_choices), round),
            None => first_index(round_keys(arena@.round_choices), round) == -1,
        },
{
    let ghost keys = round_keys(arena@.round_choices);
    let mut i: usize = 0;
    while i < arena.round_choices.len()
        invariant
            i <= arena.round_choices.len(),
            keys == round_keys(arena@.round_choices),
            keys.len() == arena.round_choices.len(),
            forall|j: int| 0 <= j < i ==> keys[j] != round,
        decreases arena.round_choices.len() - i,
    {
        if arena.round_choices[i].round == round {
            proof {
                lemma_first_index_at(keys, round, i as int);
            }
            return Some(i);
        }
        i = i + 1;
    }
    proof {
        lemma_first_index_generic(keys, round);
    }
    None
}

/// The choices revealed in round `round`, in the order of revealing.
pub fn get_round_choices(arena: &Arena, round: u32) -> (r: Vec<(AddressId, Choice)>)
    ensures
        r@ == choices_of_round(arena@, round),
{
    match find_round_slot(arena, round) {
        Some(i) => copy_vec(&arena.round_choices[i].choices),
        None => Vec::new(),
    }
}

/// Stores `choices` as the choices of round `round` and keeps that entry alive.
pub fn set_round_choices(arena: &mut Arena, round: u32, choices: &Vec<(AddressId, Choice)>, effects: &mut Vec<Effect>)
    requires
        old(arena).wf(),
        choices@.len() <= u32::MAX,
    ensures
        final(arena).wf(),
        final(arena)@ == set_round_choices_spec(old(arena)@, round, choices@),
        views(final(effects)@) == views(old(effects)@).push(bump_spec(DataKey::RoundChoices(round))),
{
    let entry = RoundChoices { round, choices: copy_vec(choices) };
    match find_round_slot(arena, round) {
        Some(i) => {
            arena.round_choices.set(i, entry);
            assert(arena@.round_choices =~= old(arena)@.round_choices.update(i as int, (round, choices@)));
        },
        None => {
            arena.round_choices.push(entry);
            assert(arena@.round_choices =~= old(arena)@.round_choices.push((round, choices@)));
        },
    }
    assert forall|j: int| 0 <= j < arena@.round_choices.len() implies #[trigger] arena@.round_choices[j].1.len()
        <= u32::MAX by {
        if arena@.round_choices[j].0 != round || j < old(arena)@.round_choices.len() {
            assert(old(arena)@.round_choices[j].1.len() <= u32::MAX || arena@.round_choices[j].1 == choices@);
        }
    }
    assert(arena@ =~= set_round_choices_spec(old(arena)@, round, choices@));
    bump(effects, &DataKey::RoundChoices(round));
}

/// The choice that `p` revealed, in a round's list of choices.
fn find_choice(choices: &Vec<(AddressId, Choice)>, p: AddressId) -> (r: Option<Choice>)
    ensures
        r == choice_of(choices@, p),
{
    let ghost keys = player_keys(choices@);
    let mut i: usize = 0;
    while i < choices.len()
        invariant
            i <= choices.len(),
            keys == player_keys(choices@),
            keys.len() == choices.len(),
            forall|j: int| 0 <= j < i ==> keys[j] != p,
        decreases choices.len() - i,
    {
        if choices[i].0 == p {
            proof {
                lemma_first_index_at(keys, p, i as int);
            }
            return Some(choices[i].1);
        }
        i = i + 1;
    }
    proof {
        lemma_first_index_generic(keys, p);
    }
    None
}

/// How many of `choices` are heads, and how many tails.
fn count_sides(choices: &Vec<(AddressId, Choice)>) -> (r: (u32, u32))
    requires
        choices@.len() <= u32::MAX,
    ensures
        r.0 == count_choice(choices@, Choice::Heads),
        r.1 == count_choice(choices@, Choice::Tails),
{
    let mut heads: u32 = 0;
    let mut tails: u32 = 0;
    let mut i: usize = 0;
    while i < choices.len()
        invariant
            i <= choices.len(),
            choices@.len() <= u32::MAX,
            heads == count_choice(choices@.take(i as int), Choice::Heads),
            tails == count_choice(choices@.take(i as int), Choice::Tails),
            heads + tails == i,
        decreases choices.len() - i,
    {
        assert(choices@.take(i + 1).drop_last() =~= choices@.take(i as int));
        match choices[i].1 {
            Choice::Heads => heads = heads + 1,
            Choice::Tails => tails = tails + 1,
        }
        i = i + 1;
    }
    assert(choices@.take(choices.len() as int) =~= choices@);
    (heads, tails)
}


/// The players whose survivor flag is set, in the order of the player list.
fn survivors_in_order(arena: &Arena) -> (r: Vec<AddressId>)
    ensures
        r@ == survivor_list(arena@.survivors, arena@.all_players),
        r@.len() <= arena@.all_players.len(),
        forall|i: int| 0 <= i < r@.len() ==> #[trigger] r@[i] < arena@.survivors.len() && arena@.survivors[r@[i] as int],
{
    let mut r: Vec<AddressId> = Vec::new();
    let mut i: usize = 0;
    while i < arena.all_players.len()
        invariant
            i <= arena.all_players.len(),
            r@ == survivor_list(arena@.survivors, arena@.all_players.take(i as int)),
            r@.len() <= i,
            forall|k: int| 0 <= k < r@.len() ==> #[trigger] r@[k] < arena@.survivors.len() && arena@.survivors[r@[k] as int],
        decreases arena.all_players.len() - i,
    {
        assert(arena@.all_players.take(i + 1).drop_last() =~= arena@.all_players.take(i as int));
        let p = arena.all_players[i];
        if p < arena.survivors.len() as u64 && arena.survivors[p as usize] {
            r.push(p);
        }
        i = i + 1;
    }
    assert(arena@.all_players.take(arena.all_players.len() as int) =~= arena@.all_players);
    r
}

/// Shares `prize` of `token` out among `recipients` (see `share_out`).
fn pay_out(token: AddressId, recipients: &Vec<AddressId>, prize: i128, effects: &mut Vec<Effect>)
    requires
        0 < recipients@.len() <= u32::MAX,
    ensures
        views(final(effects)@) == views(old(effects)@) + share_out(token, recipients@, prize),
{
    let n = recipients.len() as u32;
    let (share, dust) = match split_prize(prize, n) {
        Ok(v) => v,
        Err(_) => {
            return;
        },
    };
    let mut i: usize = 0;
    while i < recipients.len()
        invariant
            i <= recipients.len(),
            views(effects@) == views(old(effects)@) + transfers(token, recipients@.take(i as int), share),
        decreases recipients.len() - i,
    {
        emit(effects, Effect::Transfer { token, to: recipients[i], amount: share });
        i = i + 1;
        assert(transfers(token, recipients@.take(i as int), share) =~= transfers(
            token,
            recipients@.take(i - 1),
            share,
        ).push(EffectView::Transfer { token, to: recipients@[i - 1], amount: share }));
    }
    assert(recipients@.take(recipients.len() as int) =~= recipients@);
    if dust > 0 {
        emit(effects, Effect::Transfer { token, to: recipients[0], amount: dust });
    }
    assert(views(effects@) =~= views(old(effects)@) + share_out(token, recipients@, prize));
}

/// Declares the winner when exactly one player survives (see
/// `declare_winner_spec`).
fn declare_winner(arena: &mut Arena, effects: &mut Vec<Effect>)
    requires
        old(arena).wf(),
    ensures
        final(arena).wf(),
        final(arena)@ == declare_winner_spec(old(arena)@).0,
        views(final(effects)@) == views(old(effects)@) + declare_winner_spec(old(arena)@).1,
{
    let survivors = survivors_in_order(arena);
    if survivors.len() != 1 {
        assert(views(effects@) =~= views(old(effects)@) + seq![]);
        return;
    }
    let winner = survivors[0];
    assert(winner < arena@.survivors.len());
    arena.winners.set(winner as usize, true);
    bump(effects, &DataKey::Winner(winner));
    let prize_pool = match arena.prize_pool {
        Some(p) => p,
        None => 0,
    };
    let yield_earned = match arena.yield_earned {
        Some(y) => y,
        None => 0,
    };
    let total_rounds = match arena.round {
        Some(r) => r.round_number,
        None => 0,
    };
    emit(
        effects,
        Effect::WinnerDeclared(WinnerDeclared { arena_id: 0, winner, prize_pool, yield_earned, total_rounds }),
    );
    emit(effects, Effect::Payout { winner, prize_pool, yield_earned });
    let ghost m1 = arena@;
    assert(m1 =~= ArenaModel { winners: old(arena)@.winners.update(winner as int, true), ..old(arena)@ });
    set_state(arena, ArenaState::Completed, effects);
    assert(views(effects@) =~= views(old(effects)@) + declare_winner_spec(old(arena)@).1);
}

/// Settles a round in which nobody survived (see `handle_draw_spec`).
fn handle_draw(arena: &mut Arena, effects: &mut Vec<Effect>) -> (r: Result<(), ArenaError>)
    requires
        old(arena).wf(),
    ensures
        final(arena).wf(),
        match handle_draw_spec(old(arena)@) {
            Ok((m, e)) => r is Ok && final(arena)@ == m && views(final(effects)@) == views(old(effects)@) + e,
            Err(err) => r == Err::<(), ArenaError>(err) && final(arena)@ == old(arena)@ && final(effects)@ == old(effects)@,
        },
{
    if arena.all_players.len() == 0 {
        assert(views(effects@) =~= views(old(effects)@) + seq![]);
        return Ok(());
    }
    let prize_pool = match arena.prize_pool {
        Some(p) => p,
        None => 0,
    };
    if prize_pool > 0 {
        let token = match arena.token {
            Some(t) => t,
            None => {
                return Err(ArenaError::TokenNotSet);
            },
        };
        pay_out(token, &arena.all_players, prize_pool, effects);
        arena.prize_pool = Some(0);
        set_state(arena, ArenaState::Completed, effects);
        assert(views(effects@) =~= views(old(effects)@) + (share_out(token, old(arena)@.all_players, prize_pool)
            + set_state_spec(ArenaModel { prize_pool: Some(0i128), ..old(arena)@ }, ArenaState::Completed).1));
    } else {
        set_state(arena, ArenaState::Completed, effects);
    }
    Ok(())
}

/// Closes the arena after its last allowed round (see `max_rounds_draw_spec`).
fn resolve_max_rounds_draw(arena: &mut Arena, round: RoundState, effects: &mut Vec<Effect>) -> (r: Result<
    RoundState,
    ArenaError,
>)
    requires
        old(arena).wf(),
    ensures
        final(arena).wf(),
        applied(max_rounds_draw_spec(old(arena)@, round), r, old(arena)@, final(arena)@, views(old(effects)@), views(final(effects)@)),
{
    let survivors = survivors_in_order(arena);
    let prize = match arena.prize_pool {
        Some(p) => p,
        None => 0,
    };
    if survivors.len() > 0 && prize > 0 {
        let token = match arena.token {
            Some(t) => t,
            None => {
                return Err(ArenaError::TokenNotSet);
            },
        };
        pay_out(token, &survivors, prize, effects);
        arena.prize_pool = Some(0);
    }
    arena.game_finished = Some(true);
    let round2 = RoundState { finished: true, ..round };
    arena.round = Some(round2);
    set_state(arena, ArenaState::Completed, effects);
    assert(views(effects@) =~= views(old(effects)@) + max_rounds_draw_spec(old(arena)@, round)->Ok_0.1);
    Ok(round2)
}


/// The pass over the players of a round resolved with `side` surviving (see
/// `sweep`): eliminates the survivors who did not reveal that side, appends
/// the pass's effects to `local` and returns the players eliminated.
fn sweep_players(
    arena: &mut Arena,
    side: Option<Choice>,
    choices: &Vec<(AddressId, Choice)>,
    round_number: u32,
    local: &mut Vec<Effect>,
) -> (gone: Vec<AddressId>)
    requires
        old(arena).wf(),
        views(old(local)@) == Seq::<EffectView>::empty(),
    ensures
        ({
            let sw = sweep(sweep_start(old(arena)@), old(arena)@.all_players, side, choices@, round_number);
            &&& final(arena)@ == (ArenaModel { survivors: sw.survivors, eliminated: sw.eliminated, ..old(arena)@ })
            &&& views(final(local)@) == sw.effects
            &&& gone@ == sw.gone
        }),
        final(arena).wf(),
        gone@.len() <= old(arena)@.all_players.len(),
{
    let mut gone: Vec<AddressId> = Vec::new();
    let ghost players = old(arena)@.all_players;
    let mut i: usize = 0;
    while i < arena.all_players.len()
        invariant
            i <= arena.all_players.len(),
            players == old(arena)@.all_players,
            arena@.all_players == players,
            wf(old(arena)@),
            views(old(local)@) == Seq::<EffectView>::empty(),
            sweep(sweep_start(old(arena)@), players.take(i as int), side, choices@, round_number) == (Sweep {
                survivors: arena@.survivors,
                eliminated: arena@.eliminated,
                effects: views(local@),
                gone: gone@,
            }),
            arena@ == (ArenaModel { survivors: arena@.survivors, eliminated: arena@.eliminated, ..old(arena)@ }),
            arena@.survivors.len() == old(arena)@.survivors.len(),
            arena@.eliminated.len() == old(arena)@.eliminated.len(),
            gone@.len() <= i,
        decreases arena.all_players.len() - i,
    {
        assert(players.take(i + 1).drop_last() =~= players.take(i as int));
        let p = arena.all_players[i];
        let ghost before = Sweep {
            survivors: arena@.survivors,
            eliminated: arena@.eliminated,
            effects: views(local@),
            gone: gone@,
        };
        if p < arena.survivors.len() as u64 && arena.survivors[p as usize] {
            let pc = find_choice(choices, p);
            let survives = match (side, pc) {
                (Some(s), Some(c)) => c == s,
                _ => false,
            };
            if !survives {
                arena.survivors.set(p as usize, false);
                arena.eliminated.set(p as usize, true);
                bump(local, &DataKey::Eliminated(p));
                let choice_made = match pc {
                    Some(c) => c,
                    None => Choice::Heads,
                };
                emit(
                    local,
                    Effect::PlayerEliminated(
                        PlayerEliminated { arena_id: 0, round: round_number, player: p, choice_made },
                    ),
                );
                gone.push(p);
                let ghost after = sweep_one(before, p, side, choices@, round_number);
                assert(views(local@) =~= after.effects);
                assert(arena@.survivors =~= after.survivors);
                assert(arena@.eliminated =~= after.eliminated);
                assert(gone@ =~= after.gone);
            }
        }
        i = i + 1;
        assert(arena@ =~= ArenaModel { survivors: arena@.survivors, eliminated: arena@.eliminated, ..old(arena)@ });
    }
    assert(players.take(players.len() as int) =~= players);
    gone
}

/// Resolves a round by its revealed choices (see `resolve_by_vote_spec`).
fn resolve_by_vote(
    arena: &mut Arena,
    round: RoundState,
    heads: u32,
    tails: u32,
    side: Option<Choice>,
    effects: &mut Vec<Effect>,
) -> (r: Result<RoundState, ArenaError>)
    requires
        old(arena).wf(),
        heads == count_choice(choices_of_round(old(arena)@, round.round_number), Choice::Heads),
        tails == count_choice(choices_of_round(old(arena)@, round.round_number), Choice::Tails),
    ensures
        final(arena).wf(),
        applied(resolve_by_vote_spec(old(arena)@, round, side), r, old(arena)@, final(arena)@, views(old(effects)@), views(final(effects)@)),
{
    let saved = arena.copy();
    let choices = get_round_choices(arena, round.round_number);
    let mut local: Vec<Effect> = Vec::new();
    assert(views(local@) =~= Seq::<EffectView>::empty());
    let gone = sweep_players(arena, side, &choices, round.round_number, &mut local);
    let ghost sw = sweep(sweep_start(saved@), saved@.all_players, side, choices@, round.round_number);
    let count = gone.len() as u32;
    let survivor_count = match arena.survivor_count {
        Some(c) => c,
        None => 0,
    };
    let updated = if survivor_count >= count {
        survivor_count - count
    } else {
        0
    };
    arena.survivor_count = Some(updated);
    if updated <= 1 {
        arena.game_finished = Some(true);
    }
    let ghost m1 = arena@;
    assert(m1 =~= ArenaModel {
        survivors: sw.survivors,
        eliminated: sw.eliminated,
        survivor_count: Some(updated),
        game_finished: if updated <= 1 { Some(true) } else { saved@.game_finished },
        ..saved@
    });
    let ghost e0 = views(local@);
    if updated == 1 {
        declare_winner(arena, &mut local);
    } else if updated == 0 {
        match handle_draw(arena, &mut local) {
            Ok(()) => {},
            Err(e) => {
                *arena = saved;
                return Err(e);
            },
        }
    } else {
        assert(views(local@) =~= e0 + seq![]);
    }
    let ghost e2 = views(local@).subrange(e0.len() as int, views(local@).len() as int);
    assert(views(local@) =~= e0 + e2);
    let round2 = RoundState { finished: true, ..round };
    arena.round = Some(round2);
    let finished = match arena.game_finished {
        Some(f) => f,
        None => false,
    };
    let ghost e02 = views(local@);
    if finished {
        set_state(arena, ArenaState::Completed, &mut local);
    } else {
        assert(views(local@) =~= e02 + seq![]);
    }
    emit(
        &mut local,
        Effect::RoundResolved(
            RoundResolved { arena_id: 0, round: round.round_number, heads_count: heads, tails_count: tails, eliminated: gone },
        ),
    );
    emit_all(effects, &mut local);
    proof {
        let spec = resolve_by_vote_spec(saved@, round, side);
        assert(spec is Ok);
        assert(arena@ =~= spec->Ok_0.0);
        assert(views(effects@) =~= views(old(effects)@) + spec->Ok_0.1);
    }
    Ok(round2)
}

/// Resolves the current round, `random` deciding a tie between the sides
/// (see `resolve_internal_spec`); `resolve_round_internal_draws` says when a
/// number is to be drawn for it. On an error nothing changes.
pub fn resolve_round_internal(arena: &mut Arena, random: u64, effects: &mut Vec<Effect>) -> (r: Result<
    RoundState,
    ArenaError,
>)
    requires
        old(arena).wf(),
    ensures
        final(arena).wf(),
        applied(resolve_internal_spec(old(arena)@, random), r, old(arena)@, final(arena)@, views(old(effects)@), views(final(effects)@)),
{
    let round = match get_round(arena) {
        Ok(r) => r,
        Err(e) => {
            return Err(e);
        },
    };
    let config = match get_config(arena) {
        Ok(c) => c,
        Err(e) => {
            return Err(e);
        },
    };
    if round.round_number > 0 && round.round_number >= config.max_rounds {
        let mut local: Vec<Effect> = Vec::new();
        let r = resolve_max_rounds_draw(arena, round, &mut local);
        if r.is_ok() {
            emit_all(effects, &mut local);
        }
        assert(applied(resolve_internal_spec(old(arena)@, random), r, old(arena)@, arena@, views(old(effects)@), views(effects@)));
        return r;
    }
    let (heads, tails) = round_counts(arena, round.round_number);
    let side = choose_surviving_side(heads, tails, random);
    resolve_by_vote(arena, round, heads, tails, side, effects)
}

/// Whether resolving the current round needs a number drawn from the ledger's
/// generator (see `resolve_internal_draws_spec`): when it does not, the number
/// passed to `resolve_round_internal` makes no difference.
pub fn resolve_round_internal_draws(arena: &Arena) -> (r: bool)
    requires
        arena.wf(),
    ensures
        r == resolve_internal_draws_spec(arena@),
{
    let round = match arena.round {
        Some(r) => r,
        None => {
            return false;
        },
    };
    let config = match arena.config {
        Some(c) => c,
        None => {
            return false;
        },
    };
    if round.round_number > 0 && round.round_number >= config.max_rounds {
        return false;
    }
    let (heads, tails) = round_counts(arena, round.round_number);
    heads == tails && heads > 0
}

/// How many revealed choices of round `round_number` are heads, and how many
/// tails.
fn round_counts(arena: &Arena, round_number: u32) -> (r: (u32, u32))
    requires
        arena.wf(),
    ensures
        r.0 == count_choice(choices_of_round(arena@, round_number), Choice::Heads),
        r.1 == count_choice(choices_of_round(arena@, round_number), Choice::Tails),
{
    let choices = get_round_choices(arena, round_number);
    proof {
        lemma_first_index_generic(round_keys(arena@.round_choices), round_number);
        let k = first_index(round_keys(arena@.round_choices), round_number);
        if k >= 0 {
            assert(arena@.round_choices[k].1.len() <= u32::MAX);
        }
    }
    count_sides(&choices)
}

/// Starts the next round at ledger `sequence` and time `timestamp` (see
/// `start_round_spec`). On an error nothing changes.
pub fn start_round(arena: &mut Arena, sequence: u32, timestamp: u64, effects: &mut Vec<Effect>) -> (r: Result<
    RoundState,
    ArenaError,
>)
    requires
        old(arena).wf(),
        start_round_increments(old(arena)@, sequence, timestamp) ==> old(arena)@.round.unwrap().round_number
            < u32::MAX,
    ensures
        final(arena).wf(),
        applied(start_round_spec(old(arena)@, sequence, timestamp), r, old(arena)@, final(arena)@, views(old(effects)@), views(final(effects)@)),
{
    let current_state = get_state(arena);
    if current_state != ArenaState::Pending && current_state != ArenaState::Active {
        return Err(ArenaError::GameAlreadyFinished);
    }
    let finished = match arena.game_finished {
        Some(f) => f,
        None => false,
    };
    if finished {
        return Err(ArenaError::GameAlreadyFinished);
    }
    let round = match get_round(arena) {
        Ok(r) => r,
        Err(e) => {
            return Err(e);
        },
    };
    if round.active {
        return Err(ArenaError::RoundAlreadyActive);
    }
    let survivor_count = match arena.survivor_count {
        Some(c) => c,
        None => 0,
    };
    if survivor_count < MIN_ARENA_PARTICIPANTS {
        return Err(ArenaError::NotEnoughPlayers);
    }
    let config = match get_config(arena) {
        Ok(c) => c,
        Err(e) => {
            return Err(e);
        },
    };
    let commit_deadline_ledger = match sequence.checked_add(config.round_speed_in_ledgers) {
        Some(v) => v,
        None => {
            return Err(ArenaError::RoundDeadlineOverflow);
        },
    };
    let reveal_deadline_ledger = match commit_deadline_ledger.checked_add(config.round_speed_in_ledgers) {
        Some(v) => v,
        None => {
            return Err(ArenaError::RoundDeadlineOverflow);
        },
    };
    let round_deadline = match timestamp.checked_add(config.round_duration_seconds) {
        Some(v) => v,
        None => {
            return Err(ArenaError::RoundDeadlineOverflow);
        },
    };
    let new_round = RoundState {
        round_number: round.round_number + 1,
        round_start_ledger: sequence,
        round_deadline_ledger: commit_deadline_ledger,
        round_start: timestamp,
        round_deadline,
        active: true,
        total_submissions: 0,
        timed_out: false,
        finished: false,
    };
    arena.round = Some(new_round);
    if new_round.round_number == 1 {
        set_state(arena, ArenaState::Active, effects);
    } else {
        assert(views(effects@) =~= views(old(effects)@) + seq![]);
    }
    emit(
        effects,
        Effect::RoundStarted {
            round_number: new_round.round_number,
            start_ledger: sequence,
            commit_deadline_ledger,
            reveal_deadline_ledger,
            version: EVENT_VERSION,
        },
    );
    assert(views(effects@) =~= views(old(effects)@) + start_round_spec(old(arena)@, sequence, timestamp)->Ok_0.1);
    Ok(new_round)
}

/// Whether starting a round at ledger `sequence` and time `timestamp` would
/// pass every check only to find the round counter full, so that numbering
/// the next round overflows; `start_round` is not to be called then.
pub fn start_round_overflows(arena: &Arena, sequence: u32, timestamp: u64) -> (r: bool)
    ensures
        r == (start_round_increments(arena@, sequence, timestamp) && arena@.round.unwrap().round_number == u32::MAX),
{
    let st = get_state(arena);
    if st != ArenaState::Pending && st != ArenaState::Active {
        return false;
    }
    let finished = match arena.game_finished {
        Some(f) => f,
        None => false,
    };
    if finished {
        return false;
    }
    let round = match arena.round {
        Some(r) => r,
        None => {
            return false;
        },
    };
    if round.active || round.round_number < u32::MAX {
        return false;
    }
    let survivor_count = match arena.survivor_count {
        Some(c) => c,
        None => 0,
    };
    if survivor_count < MIN_ARENA_PARTICIPANTS {
        return false;
    }
    match arena.config {
        None => false,
        Some(config) => match sequence.checked_add(config.round_speed_in_ledgers) {
            None => false,
            Some(commit_deadline) => commit_deadline.checked_add(config.round_speed_in_ledgers).is_some()
                && timestamp.checked_add(config.round_duration_seconds).is_some(),
        },
    }
}

/// The commitment of player `p` for round `round`, if one was made.
fn find_commitment(arena: &Arena, round: u32, p: AddressId) -> (r: Option<[u8; 32]>)
    ensures
        match r {
            Some(h) => commitment_of(arena@, round, p) == Some(h@),
            None => commitment_of(arena@, round, p) is None,
        },
{
    let ghost keys = commitment_keys(arena@.commitments);
    let mut i: usize = 0;
    while i < arena.commitments.len()
        invariant
            i <= arena.commitments.len(),
            keys == commitment_keys(arena@.commitments),
            keys.len() == arena.commitments.len(),
            forall|j: int| 0 <= j < i ==> keys[j] != (round, p),
        decreases arena.commitments.len() - i,
    {
        let c = arena.commitments[i];
        if c.round == round && c.player == p {
            proof {
                lemma_first_index_at(keys, (round, p), i as int);
            }
            return Some(c.hash);
        }
        i = i + 1;
    }
    proof {
        lemma_first_index_generic(keys, (round, p));
    }
    None
}

/// Records, at ledger `sequence`, the sealed choice `commitment` of the player
/// with address `player` for round `round_number` (see `commit_choice_spec`).
/// On an error nothing changes.
pub fn commit_choice(
    arena: &mut Arena,
    sequence: u32,
    player: &[u8],
    round_number: u32,
    commitment: [u8; 32],
    effects: &mut Vec<Effect>,
) -> (r: Result<(), ArenaError>)
    requires
        old(arena).wf(),
    ensures
        final(arena).wf(),
        applied(
            commit_choice_spec(old(arena)@, sequence, player@, round_number, commitment@),
            r,
            old(arena)@,
            final(arena)@,
            views(old(effects)@),
            views(final(effects)@),
        ),
{
    let round = match get_round(arena) {
        Ok(r) => r,
        Err(e) => {
            return Err(e);
        },
    };
    if !round.active || round.round_number != round_number {
        return Err(ArenaError::WrongRoundNumber);
    }
    if sequence > round.round_deadline_ledger {
        return Err(ArenaError::CommitDeadlinePassed);
    }
    let p = match address_id(arena, player) {
        Some(p) => p,
        None => {
            return Err(ArenaError::NotASurvivor);
        },
    };
    if !(p < arena.survivors.len() as u64 && arena.survivors[p as usize]) {
        return Err(ArenaError::NotASurvivor);
    }
    if find_commitment(arena, round_number, p).is_some() {
        return Err(ArenaError::AlreadyCommitted);
    }
    arena.commitments.push(Commitment { round: round_number, player: p, hash: commitment });
    bump(effects, &DataKey::Commitment(round_number, p));
    assert(arena@ =~= commit_choice_spec(old(arena)@, sequence, player@, round_number, commitment@)->Ok_0.0);
    assert(views(effects@) =~= views(old(effects)@) + commit_choice_spec(old(arena)@, sequence, player@, round_number, commitment@)->Ok_0.1);
    Ok(())
}

/// The bytes that a commitment seals (see `commitment_preimage_spec`).
pub fn commitment_preimage(choice: Choice, nonce: &[u8; 32], player: &[u8]) -> (r: Vec<u8>)
    ensures
        r@ == commitment_preimage_spec(choice, nonce@, player@),
{
    let mut bytes: Vec<u8> = Vec::new();
    let choice_byte: u8 = match choice {
        Choice::Heads => 0,
        Choice::Tails => 1,
    };
    bytes.push(choice_byte);
    let mut i: usize = 0;
    while i < 32
        invariant
            i <= 32,
            nonce@.len() == 32,
            bytes@ == seq![choice_byte] + nonce@.take(i as int),
        decreases 32 - i,
    {
        bytes.push(nonce[i]);
        i = i + 1;
        assert(bytes@ =~= seq![choice_byte] + nonce@.take(i as int));
    }
    assert(nonce@.take(32) =~= nonce@);
    let mut j: usize = 0;
    while j < player.len()
        invariant
            j <= player.len(),
            bytes@ == seq![choice_byte] + nonce@ + player@.take(j as int),
        decreases player.len() - j,
    {
        bytes.push(player[j]);
        j = j + 1;
        assert(bytes@ =~= seq![choice_byte] + nonce@ + player@.take(j as int));
    }
    assert(player@.take(player.len() as int) =~= player@);
    bytes
}

/// The commitment that seals `choice` with `nonce` for the player with address
/// `player`: the SHA-256 digest of `commitment_preimage_spec`.
pub fn compute_commitment(env: &Env, choice: Choice, nonce: &[u8; 32], player: &[u8]) -> (r: [u8; 32])
    ensures
        r@ == sha256_digest(commitment_preimage_spec(choice, nonce@, player@)),
{
    let bytes = commitment_preimage(choice, nonce, player);
    sha256(env, &bytes)
}


/// A reveal of round `round_number` fits the machine's counters: the round's
/// submission count and list of choices can each take one more.
pub open spec fn reveal_fits(m: ArenaModel, round_number: u32) -> bool {
    &&& m.round matches Some(rs) ==> rs.total_submissions < u32::MAX
    &&& choices_of_round(m, round_number).len() < u32::MAX
}

/// A reveal at ledger `sequence` whose seal opens to `digest` gets as far as
/// recording a choice: its checks pass, the seal matches the commitment, and
/// the player has not revealed in the round yet. Only such a reveal counts
/// one more submission and one more choice.
pub open spec fn reveal_reaches_record(
    m: ArenaModel,
    sequence: u32,
    player: Seq<u8>,
    round_number: u32,
    digest: Seq<u8>,
) -> bool {
    reveal_checks_spec(m, sequence, player, round_number) matches Ok((p, c)) && digest == c && choice_of(
        choices_of_round(m, round_number),
        p,
    ) is None
}

/// The seal that a reveal compares with the commitment: computed from the
/// choice, the nonce and the address where the environment is given, and
/// `digest` otherwise.
pub open spec fn opened_seal(env: Option<&Env>, choice: Choice, nonce: Seq<u8>, player: Seq<u8>, digest: Seq<u8>) -> Seq<u8> {
    if env is Some {
        sha256_digest(commitment_preimage_spec(choice, nonce, player))
    } else {
        digest
    }
}

/// The checks of a reveal that come before its seal is opened (see
/// `reveal_checks_spec`).
fn reveal_checks(arena: &Arena, sequence: u32, player: &[u8], round_number: u32) -> (r: Result<
    (AddressId, [u8; 32]),
    ArenaError,
>)
    requires
        arena.wf(),
    ensures
        match reveal_checks_spec(arena@, sequence, player@, round_number) {
            Ok((p, c)) => r matches Ok((p2, c2)) && p2 == p && c2@ == c,
            Err(e) => r == Err::<(AddressId, [u8; 32]), ArenaError>(e),
        },
{
    let round = match get_round(arena) {
        Ok(r) => r,
        Err(e) => {
            return Err(e);
        },
    };
    if !round.active || round.round_number != round_number {
        return Err(ArenaError::WrongRoundNumber);
    }
    if sequence <= round.round_deadline_ledger {
        return Err(ArenaError::SubmissionWindowClosed);
    }
    let config = match get_config(arena) {
        Ok(c) => c,
        Err(e) => {
            return Err(e);
        },
    };
    let reveal_deadline = match round.round_deadline_ledger.checked_add(config.round_speed_in_ledgers) {
        Some(v) => v,
        None => {
            return Err(ArenaError::RoundDeadlineOverflow);
        },
    };
    if sequence > reveal_deadline {
        return Err(ArenaError::RevealDeadlinePassed);
    }
    let p = match address_id(arena, player) {
        Some(p) => p,
        None => {
            return Err(ArenaError::NoCommitment);
        },
    };
    match find_commitment(arena, round_number, p) {
        Some(c) => Ok((p, c)),
        None => Err(ArenaError::NoCommitment),
    }
}

fn same_digest(a: &[u8; 32], b: &[u8; 32]) -> (r: bool)
    ensures
        r == (a@ == b@),
{
    let mut i: usize = 0;
    while i < 32
        invariant
            i <= 32,
            a@.len() == 32,
            b@.len() == 32,
            forall|j: int| 0 <= j < i ==> a@[j] == b@[j],
        decreases 32 - i,
    {
        if a[i] != b[i] {
            return false;
        }
        i = i + 1;
    }
    assert(a@ =~= b@);
    true
}

/// Records the choice of player `p`, whose seal opened to `digest`, when it
/// matches the stored `commitment` (see `reveal_record_spec`).
fn reveal_record(
    arena: &mut Arena,
    round: RoundState,
    p: AddressId,
    choice: Choice,
    digest: &[u8; 32],
    commitment: &[u8; 32],
    effects: &mut Vec<Effect>,
) -> (r: Result<bool, ArenaError>)
    requires
        old(arena).wf(),
        digest@ == commitment@ && choice_of(choices_of_round(old(arena)@, round.round_number), p) is None ==> {
            &&& round.total_submissions < u32::MAX
            &&& choices_of_round(old(arena)@, round.round_number).len() < u32::MAX
        },
    ensures
        final(arena).wf(),
        applied(
            reveal_record_spec(old(arena)@, round, p, choice, digest@, commitment@),
            r,
            old(arena)@,
            final(arena)@,
            views(old(effects)@),
            views(final(effects)@),
        ),
{
    if !same_digest(digest, commitment) {
        return Err(ArenaError::CommitmentMismatch);
    }
    let mut choices = get_round_choices(arena, round.round_number);
    if find_choice(&choices, p).is_some() {
        return Err(ArenaError::SubmissionAlreadyExists);
    }
    choices.push((p, choice));
    set_round_choices(arena, round.round_number, &choices, effects);
    let mut round2 = RoundState { total_submissions: round.total_submissions + 1, ..round };
    arena.round = Some(round2);
    emit(
        effects,
        Effect::ChoiceSubmitted(ChoiceSubmitted { arena_id: 0, round: round2.round_number, player: p }),
    );
    let survivor_count = match arena.survivor_count {
        Some(c) => c,
        None => 0,
    };
    let due = survivor_count > 0 && round2.total_submissions >= survivor_count;
    if due {
        round2.active = false;
        arena.round = Some(round2);
    }
    proof {
        let spec = reveal_record_spec(old(arena)@, round, p, choice, digest@, commitment@);
        assert(arena@ =~= spec->Ok_0.0);
        assert(views(effects@) =~= views(old(effects)@) + spec->Ok_0.1);
    }
    Ok(due)
}

/// Reveals, at ledger `sequence`, the choice of the player with address
/// `player`; the seal is computed from `choice`, `nonce` and the address when
/// `env` is given, and is `digest` otherwise (see `opened_seal`). When every
/// survivor has revealed, the round is resolved with `random` deciding a tie.
/// On an error nothing changes.
fn reveal_at_ledger(
    env: Option<&Env>,
    arena: &mut Arena,
    sequence: u32,
    player: &[u8],
    round_number: u32,
    choice: Choice,
    nonce: &[u8; 32],
    digest: &[u8; 32],
    random: u64,
    effects: &mut Vec<Effect>,
) -> (r: Result<(), ArenaError>)
    requires
        old(arena).wf(),
        reveal_reaches_record(old(arena)@, sequence, player@, round_number, opened_seal(env, choice, nonce@, player@, digest@))
            ==> reveal_fits(old(arena)@, round_number),
    ensures
        final(arena).wf(),
        applied(
            reveal_choice_spec(
                old(arena)@,
                sequence,
                player@,
                round_number,
                choice,
                opened_seal(env, choice, nonce@, player@, digest@),
                random,
            ),
            r,
            old(arena)@,
            final(arena)@,
            views(old(effects)@),
            views(final(effects)@),
        ),
{
    let ghost seal = opened_seal(env, choice, nonce@, player@, digest@);
    let (p, commitment) = match reveal_checks(arena, sequence, player, round_number) {
        Ok(v) => v,
        Err(e) => {
            return Err(e);
        },
    };
    let opened: [u8; 32] = match env {
        Some(env) => compute_commitment(env, choice, nonce, player),
        None => *digest,
    };
    assert(opened@ == seal);
    let round = match arena.round {
        Some(r) => r,
        None => {
            return Err(ArenaError::NotInitialized);
        },
    };
    let saved = arena.copy();
    let mut local: Vec<Effect> = Vec::new();
    let due = match reveal_record(arena, round, p, choice, &opened, &commitment, &mut local) {
        Ok(d) => d,
        Err(e) => {
            return Err(e);
        },
    };
    if due {
        match resolve_round_internal(arena, random, &mut local) {
            Ok(_) => {},
            Err(e) => {
                *arena = saved;
                return Err(e);
            },
        }
    }
    emit_all(effects, &mut local);
    Ok(())
}

/// Reveals, at ledger `sequence`, the choice of the player with address
/// `player`, whose seal opens to `digest`; when every survivor has revealed,
/// the round is resolved with `random` deciding a tie (see
/// `reveal_choice_spec`). On an error nothing changes.
pub fn reveal_choice_with(
    arena: &mut Arena,
    sequence: u32,
    player: &[u8],
    round_number: u32,
    choice: Choice,
    digest: &[u8; 32],
    random: u64,
    effects: &mut Vec<Effect>,
) -> (r: Result<(), ArenaError>)
    requires
        old(arena).wf(),
        reveal_reaches_record(old(arena)@, sequence, player@, round_number, digest@) ==> reveal_fits(
            old(arena)@,
            round_number,
        ),
    ensures
        final(arena).wf(),
        applied(
            reveal_choice_spec(old(arena)@, sequence, player@, round_number, choice, digest@, random),
            r,
            old(arena)@,
            final(arena)@,
            views(old(effects)@),
            views(final(effects)@),
        ),
{
    reveal_at_ledger(None, arena, sequence, player, round_number, choice, digest, digest, random, effects)
}

/// Reveals, at ledger `sequence`, the choice of the player with address
/// `player` sealed with `nonce`; when every survivor has revealed, the round is
/// resolved with `random` deciding a tie (see `reveal_choice_spec`;
/// `reveal_draws` says when a number is to be drawn for it). On an error
/// nothing changes.
pub fn reveal_choice(
    env: &Env,
    arena: &mut Arena,
    sequence: u32,
    player: &[u8],
    round_number: u32,
    choice: Choice,
    nonce: &[u8; 32],
    random: u64,
    effects: &mut Vec<Effect>,
) -> (r: Result<(), ArenaError>)
    requires
        old(arena).wf(),
        reveal_reaches_record(
            old(arena)@,
            sequence,
            player@,
            round_number,
            sha256_digest(commitment_preimage_spec(choice, nonce@, player@)),
        ) ==> reveal_fits(old(arena)@, round_number),
    ensures
        final(arena).wf(),
        applied(
            reveal_choice_spec(
                old(arena)@,
                sequence,
                player@,
                round_number,
                choice,
                sha256_digest(commitment_preimage_spec(choice, nonce@, player@)),
                random,
            ),
            r,
            old(arena)@,
            final(arena)@,
            views(old(effects)@),
            views(final(effects)@),
        ),
{
    reveal_at_ledger(Some(env), arena, sequence, player, round_number, choice, nonce, nonce, random, effects)
}

/// Whether a reveal at ledger `sequence` whose seal opens to `digest` would
/// get as far as recording the choice only to find the round's counters full;
/// a reveal is not to be made then.
pub fn reveal_overflows(arena: &Arena, sequence: u32, player: &[u8], round_number: u32, digest: &[u8; 32]) -> (r: bool)
    requires
        arena.wf(),
    ensures
        r == (reveal_reaches_record(arena@, sequence, player@, round_number, digest@) && !reveal_fits(
            arena@,
            round_number,
        )),
{
    let (p, commitment) = match reveal_checks(arena, sequence, player, round_number) {
        Ok(v) => v,
        Err(_) => {
            return false;
        },
    };
    if !same_digest(digest, &commitment) {
        return false;
    }
    let choices = get_round_choices(arena, round_number);
    if find_choice(&choices, p).is_some() {
        return false;
    }
    let total = match arena.round {
        Some(rs) => rs.total_submissions,
        None => 0,
    };
    total == u32::MAX || choices.len() as u64 >= 4294967295u64
}

/// Whether a reveal at ledger `sequence` whose seal opens to `digest` needs a
/// number drawn from the ledger's generator (see `reveal_draws_spec`): when it
/// does not, the number passed to `reveal_choice` or `reveal_choice_with` makes
/// no difference.
pub fn reveal_draws(
    arena: &Arena,
    sequence: u32,
    player: &[u8],
    round_number: u32,
    choice: Choice,
    digest: &[u8; 32],
) -> (r: bool)
    requires
        arena.wf(),
    ensures
        r == reveal_draws_spec(arena@, sequence, player@, round_number, choice, digest@),
{
    let (p, commitment) = match reveal_checks(arena, sequence, player, round_number) {
        Ok(v) => v,
        Err(_) => {
            return false;
        },
    };
    if !same_digest(digest, &commitment) {
        return false;
    }
    let choices = get_round_choices(arena, round_number);
    if find_choice(&choices, p).is_some() {
        return false;
    }
    let round = match arena.round {
        Some(r) => r,
        None => {
            return false;
        },
    };
    let survivor_count = match arena.survivor_count {
        Some(c) => c,
        None => 0,
    };
    let submitted = (round.total_submissions as u64 + 1) as u32;
    if !(survivor_count > 0 && submitted >= survivor_count) {
        return false;
    }
    let config = match arena.config {
        Some(c) => c,
        None => {
            return false;
        },
    };
    if round.round_number > 0 && round.round_number >= config.max_rounds {
        return false;
    }
    let (heads, tails) = round_counts(arena, round_number);
    let (h, t): (u64, u64) = match choice {
        Choice::Heads => (heads as u64 + 1, tails as u64),
        Choice::Tails => (heads as u64, tails as u64 + 1),
    };
    proof {
        let pushed = choices@.push((p, choice));
        lemma_choices_after_set(arena@, round_number, pushed);
        assert(pushed.drop_last() =~= choices@);
    }
    let h32 = h as u32;
    let t32 = t as u32;
    h32 == t32 && h32 > 0
}

/// Reveals at ledger `sequence`, as `reveal_choice` does, unless the
/// reveal would be recorded with the round's counters full: then it gives
/// `None` and changes nothing.
pub fn reveal_choice_checked(
    env: &Env,
    arena: &mut Arena,
    sequence: u32,
    player: &[u8],
    round_number: u32,
    choice: Choice,
    nonce: &[u8; 32],
    random: u64,
    effects: &mut Vec<Effect>,
) -> (r: Option<Result<(), ArenaError>>)
    requires
        old(arena).wf(),
    ensures
        final(arena).wf(),
        r is None <==> reveal_reaches_record(
            old(arena)@,
            sequence,
            player@,
            round_number,
            sha256_digest(commitment_preimage_spec(choice, nonce@, player@)),
        ) && !reveal_fits(old(arena)@, round_number),
        r is None ==> final(arena)@ == old(arena)@ && final(effects)@ == old(effects)@,
        r matches Some(res) ==> applied(
                reveal_choice_spec(
                    old(arena)@,
                    sequence,
                    player@,
                    round_number,
                    choice,
                    sha256_digest(commitment_preimage_spec(choice, nonce@, player@)),
                    random,
                ),
                res,
                old(arena)@,
                final(arena)@,
                views(old(effects)@),
                views(final(effects)@),
            ),
{
    let digest = compute_commitment(env, choice, nonce, player);
    if reveal_overflows(arena, sequence, player, round_number, &digest) {
        return None;
    }
    Some(reveal_choice(env, arena, sequence, player, round_number, choice, nonce, random, effects))
}

/// Closes the active round at ledger `sequence` once its commit deadline has
/// passed (see `timeout_round_spec`). On an error nothing changes.
pub fn timeout_round(arena: &mut Arena, sequence: u32, effects: &mut Vec<Effect>) -> (r: Result<RoundState, ArenaError>)
    requires
        old(arena).wf(),
    ensures
        final(arena).wf(),
        applied(timeout_round_spec(old(arena)@, sequence), r, old(arena)@, final(arena)@, views(old(effects)@), views(final(effects)@)),
{
    let mut round = match get_round(arena) {
        Ok(r) => r,
        Err(e) => {
            return Err(e);
        },
    };
    if !round.active {
        return Err(ArenaError::NoActiveRound);
    }
    if sequence <= round.round_deadline_ledger {
        return Err(ArenaError::RoundStillOpen);
    }
    round.active = false;
    round.timed_out = true;
    arena.round = Some(round);
    emit(
        effects,
        Effect::RoundTimedOut {
            round_number: round.round_number,
            total_submissions: round.total_submissions,
            version: EVENT_VERSION,
        },
    );
    assert(views(effects@) =~= views(old(effects)@) + timeout_round_spec(old(arena)@, sequence)->Ok_0.1);
    Ok(round)
}

/// Resolves the current round at ledger `sequence`, `random` deciding a tie
/// (see `resolve_round_spec`; `resolve_round_draws` says when a number is to be
/// drawn for it). On an error nothing changes.
pub fn resolve_round(arena: &mut Arena, sequence: u32, random: u64, effects: &mut Vec<Effect>) -> (r: Result<
    RoundState,
    ArenaError,
>)
    requires
        old(arena).wf(),
    ensures
        final(arena).wf(),
        applied(resolve_round_spec(old(arena)@, sequence, random), r, old(arena)@, final(arena)@, views(old(effects)@), views(final(effects)@)),
{
    let mut round = match get_round(arena) {
        Ok(r) => r,
        Err(e) => {
            return Err(e);
        },
    };
    if round.finished {
        return Err(ArenaError::NoActiveRound);
    }
    let saved = arena.copy();
    if round.active {
        if sequence <= round.round_deadline_ledger {
            return Err(ArenaError::RoundStillOpen);
        }
        round.active = false;
        round.timed_out = true;
        arena.round = Some(round);
    }
    let r = resolve_round_internal(arena, random, effects);
    if r.is_err() {
        *arena = saved;
    }
    r
}

/// Whether resolving the current round at ledger `sequence` needs a number
/// drawn from the ledger's generator (see `resolve_round_draws_spec`): when it does
/// not, the number passed to `resolve_round` makes no difference.
pub fn resolve_round_draws(arena: &Arena, sequence: u32) -> (r: bool)
    requires
        arena.wf(),
    ensures
        r == resolve_round_draws_spec(arena@, sequence),
{
    let round = match arena.round {
        Some(r) => r,
        None => {
            return false;
        },
    };
    if round.finished || (round.active && sequence <= round.round_deadline_ledger) {
        return false;
    }
    resolve_round_internal_draws(arena)
}

} // verus!
