use arena::arena::{
    address_id, bump, get_config, get_round, get_state, intern_address, require_not_paused, set_state, Arena,
};
use arena::effects::Effect;
use arena::errors::ArenaError;
use arena::events::{Choice, ChoiceSubmitted, PlayerEliminated, RoundResolved, WinnerDeclared, EVENT_VERSION};
use arena::rounds::{
    commit_choice, commitment_preimage, compute_commitment, get_round_choices, resolve_round, resolve_round_draws,
    resolve_round_internal, resolve_round_internal_draws, reveal_choice, reveal_choice_checked, reveal_choice_with,
    reveal_draws, reveal_overflows, set_round_choices, start_round, start_round_overflows, timeout_round,
};
use arena::state::{ArenaConfig, ArenaState, DataKey, RoundState};
use soroban_sdk::Env;

fn addr(n: u8) -> Vec<u8> {
    vec![0, 0, 0, 18, 0, 0, 0, 0, n, n, n, n, n, n, n, n]
}

fn config(max_rounds: u32) -> ArenaConfig {
    ArenaConfig {
        round_speed_in_ledgers: 10,
        round_duration_seconds: 60,
        required_stake_amount: 100,
        max_rounds,
    }
}

fn idle_round(n: u32) -> RoundState {
    RoundState {
        round_number: n,
        round_start_ledger: 0,
        round_deadline_ledger: 0,
        round_start: 0,
        round_deadline: 0,
        active: false,
        total_submissions: 0,
        timed_out: false,
        finished: false,
    }
}

/// An arena with `n` joined players, all surviving, and no round played.
fn arena_with_players(n: u8) -> (Arena, Vec<u64>) {
    let mut a = Arena::new();
    let mut ids = Vec::new();
    for i in 0..n {
        let id = intern_address(&mut a, &addr(i));
        a.survivors[id as usize] = true;
        a.all_players.push(id);
        ids.push(id);
    }
    a.survivor_count = Some(n as u32);
    a.config = Some(config(10));
    a.round = Some(idle_round(0));
    (a, ids)
}

/// The arena of `arena_with_players` with round 1 started at ledger 100:
/// commits until ledger 110, reveals from 111 to 120.
fn arena_in_round_one(n: u8) -> (Arena, Vec<u64>) {
    let (mut a, ids) = arena_with_players(n);
    let mut fx = Vec::new();
    start_round(&mut a, 100, 1000, &mut fx).unwrap();
    (a, ids)
}

fn commit(env: &Env, a: &mut Arena, player: u8, choice: Choice, nonce: u8) {
    let c = compute_commitment(env, choice, &[nonce; 32], &addr(player));
    let mut fx = Vec::new();
    commit_choice(a, 105, &addr(player), 1, c, &mut fx).unwrap();
}

fn reveal_now(env: &Env, a: &mut Arena, player: u8, choice: Choice, nonce: u8, fx: &mut Vec<Effect>) -> Result<(), ArenaError> {
    let digest = compute_commitment(env, choice, &[nonce; 32], &addr(player));
    reveal_choice_with(a, 115, &addr(player), 1, choice, &digest, 0, fx)
}

// ── Stored values ─────────────────────────────────────────────────────────────

#[test]
fn state_defaults_to_pending() {
    let a = Arena::new();
    assert_eq!(get_state(&a), ArenaState::Pending);
}

#[test]
fn config_and_round_are_needed() {
    let a = Arena::new();
    assert_eq!(get_config(&a), Err(ArenaError::NotInitialized));
    assert_eq!(get_round(&a), Err(ArenaError::NotInitialized));
    let (b, _) = arena_with_players(2);
    assert_eq!(get_config(&b), Ok(config(10)));
    assert_eq!(get_round(&b), Ok(idle_round(0)));
}

#[test]
fn set_state_tells_the_factory_of_a_change() {
    let mut a = Arena::new();
    let factory = intern_address(&mut a, &addr(200));
    a.factory = Some(factory);
    a.arena_id = Some(42);
    let mut fx = Vec::new();
    set_state(&mut a, ArenaState::Active, &mut fx);
    assert_eq!(a.state, Some(ArenaState::Active));
    assert_eq!(fx, vec![Effect::NotifyFactory { factory, arena_id: 42, state: ArenaState::Active }]);
    // Setting the same state again changes nothing and tells nobody.
    set_state(&mut a, ArenaState::Active, &mut fx);
    assert_eq!(fx.len(), 1);
}

#[test]
fn set_state_without_factory_only_stores() {
    let mut a = Arena::new();
    let mut fx = Vec::new();
    set_state(&mut a, ArenaState::Cancelled, &mut fx);
    assert_eq!(get_state(&a), ArenaState::Cancelled);
    assert!(fx.is_empty());
    // Pending is the default: storing it on a fresh arena is no change.
    let mut b = Arena::new();
    set_state(&mut b, ArenaState::Pending, &mut fx);
    assert_eq!(b.state, None);
}

#[test]
fn bump_extends_persistent_entries_and_the_instance() {
    let mut fx = Vec::new();
    bump(&mut fx, &DataKey::Survivor(3));
    bump(&mut fx, &DataKey::AllPlayers);
    bump(&mut fx, &DataKey::Config);
    bump(&mut fx, &DataKey::State);
    assert_eq!(
        fx,
        vec![
            Effect::ExtendPersistentTtl { key: DataKey::Survivor(3) },
            Effect::ExtendPersistentTtl { key: DataKey::AllPlayers },
            Effect::ExtendInstanceTtl,
            Effect::ExtendInstanceTtl,
        ]
    );
}

#[test]
fn paused_arena_is_refused() {
    let mut a = Arena::new();
    assert_eq!(require_not_paused(&a), Ok(()));
    a.paused = Some(false);
    assert_eq!(require_not_paused(&a), Ok(()));
    a.paused = Some(true);
    assert_eq!(require_not_paused(&a), Err(ArenaError::Paused));
}

#[test]
fn address_book_keeps_each_address_once() {
    let mut a = Arena::new();
    let x = intern_address(&mut a, &addr(1));
    let y = intern_address(&mut a, &addr(2));
    assert_ne!(x, y);
    assert_eq!(intern_address(&mut a, &addr(1)), x);
    assert_eq!(a.addresses.len(), 2);
    assert_eq!(address_id(&a, &addr(2)), Some(y));
    assert_eq!(address_id(&a, &addr(3)), None);
}

#[test]
fn round_choices_are_stored_per_round() {
    let mut a = Arena::new();
    let mut fx = Vec::new();
    assert!(get_round_choices(&a, 1).is_empty());
    set_round_choices(&mut a, 1, &vec![(0, Choice::Heads)], &mut fx);
    set_round_choices(&mut a, 2, &vec![(1, Choice::Tails)], &mut fx);
    set_round_choices(&mut a, 1, &vec![(0, Choice::Heads), (2, Choice::Tails)], &mut fx);
    assert_eq!(get_round_choices(&a, 1), vec![(0, Choice::Heads), (2, Choice::Tails)]);
    assert_eq!(get_round_choices(&a, 2), vec![(1, Choice::Tails)]);
    assert_eq!(a.round_choices.len(), 2);
    assert_eq!(fx[0], Effect::ExtendPersistentTtl { key: DataKey::RoundChoices(1) });
    assert_eq!(fx.len(), 3);
}

// ── Starting rounds ───────────────────────────────────────────────────────────

#[test]
fn first_round_opens_and_activates_the_arena() {
    let (mut a, _) = arena_with_players(3);
    let factory = intern_address(&mut a, &addr(99));
    a.factory = Some(factory);
    a.arena_id = Some(7);
    let mut fx = Vec::new();
    let r = start_round(&mut a, 100, 1000, &mut fx).unwrap();
    let expected = RoundState {
        round_number: 1,
        round_start_ledger: 100,
        round_deadline_ledger: 110,
        round_start: 1000,
        round_deadline: 1060,
        active: true,
        total_submissions: 0,
        timed_out: false,
        finished: false,
    };
    assert_eq!(r, expected);
    assert_eq!(a.round, Some(expected));
    assert_eq!(get_state(&a), ArenaState::Active);
    assert_eq!(
        fx,
        vec![
            Effect::NotifyFactory { factory, arena_id: 7, state: ArenaState::Active },
            Effect::RoundStarted {
                round_number: 1,
                start_ledger: 100,
                commit_deadline_ledger: 110,
                reveal_deadline_ledger: 120,
                version: EVENT_VERSION,
            },
        ]
    );
}

#[test]
fn later_round_keeps_the_state() {
    let (mut a, _) = arena_with_players(3);
    a.state = Some(ArenaState::Active);
    a.round = Some(RoundState { finished: true, ..idle_round(4) });
    let mut fx = Vec::new();
    let r = start_round(&mut a, 10, 20, &mut fx).unwrap();
    assert_eq!(r.round_number, 5);
    assert_eq!(fx.len(), 1);
}

fn assert_start_refused(a: Arena, sequence: u32, err: ArenaError) {
    let mut a = a;
    let before = a.copy();
    let mut fx = Vec::new();
    assert_eq!(start_round(&mut a, sequence, 0, &mut fx), Err(err));
    assert_eq!(a, before);
    assert!(fx.is_empty());
}

#[test]
fn start_round_refused_in_terminal_state() {
    let (mut a, _) = arena_with_players(3);
    a.state = Some(ArenaState::Completed);
    assert_start_refused(a, 1, ArenaError::GameAlreadyFinished);
    let (mut b, _) = arena_with_players(3);
    b.state = Some(ArenaState::Cancelled);
    assert_start_refused(b, 1, ArenaError::GameAlreadyFinished);
}

#[test]
fn start_round_refused_after_game_finished() {
    let (mut a, _) = arena_with_players(3);
    a.game_finished = Some(true);
    assert_start_refused(a, 1, ArenaError::GameAlreadyFinished);
}

#[test]
fn start_round_needs_a_round_record() {
    let (mut a, _) = arena_with_players(3);
    a.round = None;
    assert_start_refused(a, 1, ArenaError::NotInitialized);
}

#[test]
fn start_round_refused_while_a_round_is_active() {
    let (a, _) = arena_in_round_one(3);
    assert_start_refused(a, 1, ArenaError::RoundAlreadyActive);
}

#[test]
fn start_round_needs_two_survivors() {
    let (mut a, _) = arena_with_players(3);
    a.survivor_count = Some(1);
    assert_start_refused(a, 1, ArenaError::NotEnoughPlayers);
}

#[test]
fn start_round_needs_a_config() {
    let (mut a, _) = arena_with_players(3);
    a.config = None;
    assert_start_refused(a, 1, ArenaError::NotInitialized);
}

#[test]
fn start_round_refuses_deadlines_past_the_ledger_range() {
    let (a, _) = arena_with_players(3);
    assert_start_refused(a, u32::MAX - 5, ArenaError::RoundDeadlineOverflow);
    let (b, _) = arena_with_players(3);
    assert_start_refused(b, u32::MAX - 15, ArenaError::RoundDeadlineOverflow);
    let (mut c, _) = arena_with_players(3);
    let mut fx = Vec::new();
    let before = c.copy();
    assert_eq!(start_round(&mut c, 1, u64::MAX - 10, &mut fx), Err(ArenaError::RoundDeadlineOverflow));
    assert_eq!(c, before);
}

// ── Committing and revealing ──────────────────────────────────────────────────

#[test]
fn commitment_is_sha256_of_choice_nonce_and_address() {
    let env = Env::default();
    assert_eq!(commitment_preimage(Choice::Tails, &[9u8; 32], &[5, 6]).len(), 35);
    assert_eq!(commitment_preimage(Choice::Tails, &[9u8; 32], &[5, 6])[0], 1);
    let digest = compute_commitment(&env, Choice::Heads, &[1u8; 32], &[2u8, 3u8]);
    assert_eq!(
        digest,
        [
            8, 244, 127, 224, 224, 53, 42, 192, 62, 143, 236, 158, 249, 20, 24, 244, 148, 175, 0, 77, 199, 14, 84, 198,
            76, 200, 208, 89, 236, 161, 18, 123
        ]
    );
}

#[test]
fn survivor_commits_once() {
    let (mut a, ids) = arena_in_round_one(3);
    let mut fx = Vec::new();
    assert_eq!(commit_choice(&mut a, 110, &addr(0), 1, [7u8; 32], &mut fx), Ok(()));
    assert_eq!(fx, vec![Effect::ExtendPersistentTtl { key: DataKey::Commitment(1, ids[0]) }]);
    assert_eq!(a.commitments.len(), 1);
    let before = a.copy();
    assert_eq!(commit_choice(&mut a, 110, &addr(0), 1, [8u8; 32], &mut fx), Err(ArenaError::AlreadyCommitted));
    assert_eq!(a, before);
    assert_eq!(a.commitments[0].hash, [7u8; 32]);
}

#[test]
fn commit_refusals() {
    let (mut a, ids) = arena_in_round_one(3);
    let mut fx = Vec::new();
    assert_eq!(commit_choice(&mut a, 105, &addr(0), 2, [0u8; 32], &mut fx), Err(ArenaError::WrongRoundNumber));
    assert_eq!(commit_choice(&mut a, 111, &addr(0), 1, [0u8; 32], &mut fx), Err(ArenaError::CommitDeadlinePassed));
    assert_eq!(commit_choice(&mut a, 105, &addr(50), 1, [0u8; 32], &mut fx), Err(ArenaError::NotASurvivor));
    a.survivors[ids[1] as usize] = false;
    assert_eq!(commit_choice(&mut a, 105, &addr(1), 1, [0u8; 32], &mut fx), Err(ArenaError::NotASurvivor));
    let (mut b, _) = arena_with_players(3);
    assert_eq!(commit_choice(&mut b, 105, &addr(0), 0, [0u8; 32], &mut fx), Err(ArenaError::WrongRoundNumber));
    assert!(fx.is_empty());
    assert!(a.commitments.is_empty());
}

#[test]
fn reveal_records_the_committed_choice() {
    let env = Env::default();
    let (mut a, ids) = arena_in_round_one(3);
    commit(&env, &mut a, 0, Choice::Tails, 4);
    let mut fx = Vec::new();
    assert_eq!(reveal_now(&env, &mut a, 0, Choice::Tails, 4, &mut fx), Ok(()));
    assert_eq!(get_round_choices(&a, 1), vec![(ids[0], Choice::Tails)]);
    assert_eq!(a.round.unwrap().total_submissions, 1);
    assert!(a.round.unwrap().active);
    assert_eq!(
        fx,
        vec![
            Effect::ExtendPersistentTtl { key: DataKey::RoundChoices(1) },
            Effect::ChoiceSubmitted(ChoiceSubmitted { arena_id: 0, round: 1, player: ids[0] }),
        ]
    );
}

#[test]
fn reveal_refusals_change_nothing() {
    let env = Env::default();
    let (mut a, _) = arena_in_round_one(3);
    commit(&env, &mut a, 0, Choice::Heads, 1);
    let before = a.copy();
    let mut fx = Vec::new();
    let good = compute_commitment(&env, Choice::Heads, &[1u8; 32], &addr(0));
    let bad = compute_commitment(&env, Choice::Tails, &[1u8; 32], &addr(0));
    assert_eq!(
        reveal_choice_with(&mut a, 115, &addr(0), 1, Choice::Tails, &bad, 0, &mut fx),
        Err(ArenaError::CommitmentMismatch)
    );
    assert_eq!(
        reveal_choice_with(&mut a, 110, &addr(0), 1, Choice::Heads, &good, 0, &mut fx),
        Err(ArenaError::SubmissionWindowClosed)
    );
    assert_eq!(
        reveal_choice_with(&mut a, 121, &addr(0), 1, Choice::Heads, &good, 0, &mut fx),
        Err(ArenaError::RevealDeadlinePassed)
    );
    assert_eq!(
        reveal_choice_with(&mut a, 115, &addr(0), 2, Choice::Heads, &good, 0, &mut fx),
        Err(ArenaError::WrongRoundNumber)
    );
    assert_eq!(
        reveal_choice_with(&mut a, 115, &addr(1), 1, Choice::Heads, &good, 0, &mut fx),
        Err(ArenaError::NoCommitment)
    );
    assert_eq!(
        reveal_choice_with(&mut a, 115, &addr(77), 1, Choice::Heads, &good, 0, &mut fx),
        Err(ArenaError::NoCommitment)
    );
    assert_eq!(a, before);
    assert!(fx.is_empty());
}

#[test]
fn reveal_twice_is_refused() {
    let env = Env::default();
    let (mut a, _) = arena_in_round_one(3);
    commit(&env, &mut a, 0, Choice::Heads, 1);
    let mut fx = Vec::new();
    assert_eq!(reveal_now(&env, &mut a, 0, Choice::Heads, 1, &mut fx), Ok(()));
    assert_eq!(reveal_now(&env, &mut a, 0, Choice::Heads, 1, &mut fx), Err(ArenaError::SubmissionAlreadyExists));
    assert_eq!(a.round.unwrap().total_submissions, 1);
}

#[test]
fn last_reveal_resolves_the_round_and_declares_the_winner() {
    let env = Env::default();
    let (mut a, ids) = arena_in_round_one(3);
    a.prize_pool = Some(3000);
    a.yield_earned = Some(45);
    commit(&env, &mut a, 0, Choice::Heads, 1);
    commit(&env, &mut a, 1, Choice::Tails, 2);
    commit(&env, &mut a, 2, Choice::Tails, 3);
    let mut fx = Vec::new();
    reveal_now(&env, &mut a, 0, Choice::Heads, 1, &mut fx).unwrap();
    reveal_now(&env, &mut a, 1, Choice::Tails, 2, &mut fx).unwrap();
    fx.clear();
    reveal_now(&env, &mut a, 2, Choice::Tails, 3, &mut fx).unwrap();
    // Heads is the minority: player 0 survives alone and wins.
    assert!(a.survivors[ids[0] as usize]);
    assert!(!a.survivors[ids[1] as usize] && !a.survivors[ids[2] as usize]);
    assert!(a.eliminated[ids[1] as usize] && a.eliminated[ids[2] as usize]);
    assert!(a.winners[ids[0] as usize]);
    assert_eq!(a.survivor_count, Some(1));
    assert_eq!(a.game_finished, Some(true));
    assert_eq!(get_state(&a), ArenaState::Completed);
    let round = a.round.unwrap();
    assert!(round.finished && !round.active && round.total_submissions == 3);
    assert_eq!(
        fx,
        vec![
            Effect::ExtendPersistentTtl { key: DataKey::RoundChoices(1) },
            Effect::ChoiceSubmitted(ChoiceSubmitted { arena_id: 0, round: 1, player: ids[2] }),
            Effect::ExtendPersistentTtl { key: DataKey::Eliminated(ids[1]) },
            Effect::PlayerEliminated(PlayerEliminated { arena_id: 0, round: 1, player: ids[1], choice_made: Choice::Tails }),
            Effect::ExtendPersistentTtl { key: DataKey::Eliminated(ids[2]) },
            Effect::PlayerEliminated(PlayerEliminated { arena_id: 0, round: 1, player: ids[2], choice_made: Choice::Tails }),
            Effect::ExtendPersistentTtl { key: DataKey::Winner(ids[0]) },
            Effect::WinnerDeclared(WinnerDeclared {
                arena_id: 0,
                winner: ids[0],
                prize_pool: 3000,
                yield_earned: 45,
                total_rounds: 1,
            }),
            Effect::Payout { winner: ids[0], prize_pool: 3000, yield_earned: 45 },
            Effect::RoundResolved(RoundResolved {
                arena_id: 0,
                round: 1,
                heads_count: 1,
                tails_count: 2,
                eliminated: vec![ids[1], ids[2]],
            }),
        ]
    );
}

// ── Closing and resolving ─────────────────────────────────────────────────────

#[test]
fn timeout_closes_an_overdue_round() {
    let (mut a, _) = arena_in_round_one(3);
    let mut fx = Vec::new();
    let before = a.copy();
    assert_eq!(timeout_round(&mut a, 110, &mut fx), Err(ArenaError::RoundStillOpen));
    assert_eq!(a, before);
    let r = timeout_round(&mut a, 111, &mut fx).unwrap();
    assert!(!r.active && r.timed_out);
    assert_eq!(a.round, Some(r));
    assert_eq!(fx, vec![Effect::RoundTimedOut { round_number: 1, total_submissions: 0, version: EVENT_VERSION }]);
    assert_eq!(timeout_round(&mut a, 200, &mut fx), Err(ArenaError::NoActiveRound));
    let mut b = Arena::new();
    assert_eq!(timeout_round(&mut b, 1, &mut fx), Err(ArenaError::NotInitialized));
}

#[test]
fn resolve_round_waits_for_the_deadline() {
    let (mut a, _) = arena_in_round_one(3);
    let mut fx = Vec::new();
    let before = a.copy();
    assert_eq!(resolve_round(&mut a, 110, 0, &mut fx), Err(ArenaError::RoundStillOpen));
    assert_eq!(a, before);
    assert!(fx.is_empty());
}

#[test]
fn round_without_reveals_is_a_draw_sharing_the_pool() {
    let (mut a, ids) = arena_in_round_one(3);
    let token = intern_address(&mut a, &addr(100));
    a.token = Some(token);
    a.prize_pool = Some(1000);
    let mut fx = Vec::new();
    let r = resolve_round(&mut a, 111, 0, &mut fx).unwrap();
    assert!(r.finished && r.timed_out && !r.active);
    assert_eq!(a.survivor_count, Some(0));
    assert_eq!(a.prize_pool, Some(0));
    assert_eq!(get_state(&a), ArenaState::Completed);
    let transfers: Vec<&Effect> = fx.iter().filter(|e| matches!(e, Effect::Transfer { .. })).collect();
    assert_eq!(
        transfers,
        vec![
            &Effect::Transfer { token, to: ids[0], amount: 333 },
            &Effect::Transfer { token, to: ids[1], amount: 333 },
            &Effect::Transfer { token, to: ids[2], amount: 333 },
            &Effect::Transfer { token, to: ids[0], amount: 1 },
        ]
    );
    assert_eq!(
        fx.last(),
        Some(&Effect::RoundResolved(RoundResolved {
            arena_id: 0,
            round: 1,
            heads_count: 0,
            tails_count: 0,
            eliminated: vec![ids[0], ids[1], ids[2]],
        }))
    );
    assert_eq!(resolve_round(&mut a, 500, 0, &mut fx), Err(ArenaError::NoActiveRound));
}

#[test]
fn draw_without_token_is_refused_and_changes_nothing() {
    let (mut a, _) = arena_in_round_one(3);
    a.prize_pool = Some(1000);
    let before = a.copy();
    let mut fx = Vec::new();
    assert_eq!(resolve_round(&mut a, 111, 0, &mut fx), Err(ArenaError::TokenNotSet));
    assert_eq!(a, before);
    assert!(fx.is_empty());
}

#[test]
fn draw_with_empty_pool_pays_nothing() {
    let (mut a, _) = arena_in_round_one(2);
    let mut fx = Vec::new();
    resolve_round(&mut a, 111, 0, &mut fx).unwrap();
    assert!(!fx.iter().any(|e| matches!(e, Effect::Transfer { .. })));
    assert_eq!(get_state(&a), ArenaState::Completed);
    assert_eq!(a.prize_pool, None);
}

#[test]
fn tie_is_decided_by_the_random_number() {
    let env = Env::default();
    for (random, winner_index) in [(0u64, 0usize), (1u64, 1usize)] {
        let (mut a, ids) = arena_in_round_one(2);
        commit(&env, &mut a, 0, Choice::Heads, 1);
        commit(&env, &mut a, 1, Choice::Tails, 2);
        let mut fx = Vec::new();
        reveal_now(&env, &mut a, 0, Choice::Heads, 1, &mut fx).unwrap();
        let digest = compute_commitment(&env, Choice::Tails, &[2u8; 32], &addr(1));
        reveal_choice_with(&mut a, 115, &addr(1), 1, Choice::Tails, &digest, random, &mut fx).unwrap();
        assert!(a.winners[ids[winner_index] as usize]);
        assert_eq!(a.survivor_count, Some(1));
    }
}

#[test]
fn survivors_continue_when_several_remain() {
    let env = Env::default();
    let (mut a, ids) = arena_in_round_one(5);
    for (p, c) in [(0u8, Choice::Heads), (1, Choice::Heads), (2, Choice::Tails), (3, Choice::Tails), (4, Choice::Tails)] {
        commit(&env, &mut a, p, c, p + 1);
    }
    let mut fx = Vec::new();
    for (p, c) in [(0u8, Choice::Heads), (1, Choice::Heads), (2, Choice::Tails), (3, Choice::Tails)] {
        reveal_now(&env, &mut a, p, c, p + 1, &mut fx).unwrap();
    }
    // Player 4 never reveals; the round is closed by its deadline.
    let r = resolve_round(&mut a, 130, 0, &mut fx).unwrap();
    assert!(r.finished);
    assert_eq!(a.survivor_count, Some(2));
    assert!(a.survivors[ids[0] as usize] && a.survivors[ids[1] as usize]);
    assert!(!a.survivors[ids[2] as usize] && !a.survivors[ids[3] as usize] && !a.survivors[ids[4] as usize]);
    assert_eq!(get_state(&a), ArenaState::Active);
    assert_eq!(a.game_finished, None);
    // The next round can start.
    let next = start_round(&mut a, 200, 5000, &mut fx).unwrap();
    assert_eq!(next.round_number, 2);
}

#[test]
fn last_allowed_round_shares_the_pool_among_survivors() {
    let (mut a, ids) = arena_with_players(3);
    a.config = Some(config(3));
    a.round = Some(idle_round(3));
    a.survivors[ids[1] as usize] = false;
    let token = intern_address(&mut a, &addr(100));
    a.token = Some(token);
    a.prize_pool = Some(1001);
    let mut fx = Vec::new();
    let r = resolve_round_internal(&mut a, 0, &mut fx).unwrap();
    assert!(r.finished);
    assert_eq!(a.prize_pool, Some(0));
    assert_eq!(a.game_finished, Some(true));
    assert_eq!(get_state(&a), ArenaState::Completed);
    assert_eq!(
        fx,
        vec![
            Effect::Transfer { token, to: ids[0], amount: 500 },
            Effect::Transfer { token, to: ids[2], amount: 500 },
            Effect::Transfer { token, to: ids[0], amount: 1 },
        ]
    );
}

#[test]
fn resolve_needs_round_and_config() {
    let mut a = Arena::new();
    let mut fx = Vec::new();
    assert_eq!(resolve_round_internal(&mut a, 0, &mut fx), Err(ArenaError::NotInitialized));
    a.round = Some(idle_round(1));
    assert_eq!(resolve_round_internal(&mut a, 0, &mut fx), Err(ArenaError::NotInitialized));
    assert_eq!(resolve_round(&mut Arena::new(), 0, 0, &mut fx), Err(ArenaError::NotInitialized));
}

#[test]
fn random_number_does_not_matter_without_a_tie() {
    let env = Env::default();
    let mut outcomes = Vec::new();
    for random in [0u64, 1, 12345] {
        let (mut a, _) = arena_in_round_one(4);
        commit(&env, &mut a, 0, Choice::Heads, 1);
        commit(&env, &mut a, 1, Choice::Tails, 2);
        commit(&env, &mut a, 2, Choice::Tails, 3);
        let mut fx = Vec::new();
        reveal_now(&env, &mut a, 0, Choice::Heads, 1, &mut fx).unwrap();
        reveal_now(&env, &mut a, 1, Choice::Tails, 2, &mut fx).unwrap();
        reveal_now(&env, &mut a, 2, Choice::Tails, 3, &mut fx).unwrap();
        let r = resolve_round(&mut a, 125, random, &mut fx).unwrap();
        outcomes.push((r, a, fx));
    }
    assert_eq!(outcomes[0], outcomes[1]);
    assert_eq!(outcomes[1], outcomes[2]);
}

// ── Full counters ─────────────────────────────────────────────────────────────

#[test]
fn full_round_counter_still_gets_the_early_refusals() {
    let mut fx = Vec::new();
    let (mut a, _) = arena_with_players(3);
    a.round = Some(idle_round(u32::MAX));
    a.game_finished = Some(true);
    assert!(!start_round_overflows(&a, 100, 1000));
    assert_eq!(start_round(&mut a, 100, 1000, &mut fx), Err(ArenaError::GameAlreadyFinished));
    a.game_finished = None;
    a.round = Some(RoundState { active: true, ..idle_round(u32::MAX) });
    assert!(!start_round_overflows(&a, 100, 1000));
    assert_eq!(start_round(&mut a, 100, 1000, &mut fx), Err(ArenaError::RoundAlreadyActive));
    a.round = Some(idle_round(u32::MAX));
    a.survivor_count = Some(1);
    assert!(!start_round_overflows(&a, 100, 1000));
    assert_eq!(start_round(&mut a, 100, 1000, &mut fx), Err(ArenaError::NotEnoughPlayers));
    a.survivor_count = Some(3);
    assert!(!start_round_overflows(&a, u32::MAX - 5, 1000));
    assert_eq!(start_round(&mut a, u32::MAX - 5, 1000, &mut fx), Err(ArenaError::RoundDeadlineOverflow));
    assert!(start_round_overflows(&a, 100, 1000));
    assert!(fx.is_empty());
}

#[test]
fn full_submission_counter_still_gets_the_early_refusals() {
    let env = Env::default();
    let (mut a, _) = arena_in_round_one(3);
    commit(&env, &mut a, 0, Choice::Heads, 1);
    a.round = Some(RoundState { total_submissions: u32::MAX, ..a.round.unwrap() });
    let good = compute_commitment(&env, Choice::Heads, &[1u8; 32], &addr(0));
    let bad = compute_commitment(&env, Choice::Tails, &[1u8; 32], &addr(0));
    let mut fx = Vec::new();
    assert!(!reveal_overflows(&a, 110, &addr(0), 1, &good));
    assert_eq!(
        reveal_choice_with(&mut a, 110, &addr(0), 1, Choice::Heads, &good, 0, &mut fx),
        Err(ArenaError::SubmissionWindowClosed)
    );
    assert!(!reveal_overflows(&a, 115, &addr(0), 2, &good));
    assert!(!reveal_overflows(&a, 115, &addr(0), 1, &bad));
    assert_eq!(
        reveal_choice_with(&mut a, 115, &addr(0), 1, Choice::Tails, &bad, 0, &mut fx),
        Err(ArenaError::CommitmentMismatch)
    );
    assert!(!reveal_overflows(&a, 115, &addr(1), 1, &good));
    assert!(reveal_overflows(&a, 115, &addr(0), 1, &good));
    assert!(fx.is_empty());
}

// ── Ledger given, draw from the host ──────────────────────────────────────────

#[test]
fn reveal_at_a_ledger_hashes_the_nonce_itself() {
    let env = Env::default();
    let (mut a, ids) = arena_in_round_one(3);
    commit(&env, &mut a, 0, Choice::Tails, 4);
    let before = a.copy();
    let mut fx = Vec::new();
    assert_eq!(
        reveal_choice(&env, &mut a, 115, &addr(0), 1, Choice::Heads, &[4u8; 32], 0, &mut fx),
        Err(ArenaError::CommitmentMismatch)
    );
    assert_eq!(
        reveal_choice(&env, &mut a, 110, &addr(0), 1, Choice::Tails, &[4u8; 32], 0, &mut fx),
        Err(ArenaError::SubmissionWindowClosed)
    );
    assert_eq!(a, before);
    assert_eq!(reveal_choice(&env, &mut a, 115, &addr(0), 1, Choice::Tails, &[4u8; 32], 0, &mut fx), Ok(()));
    assert_eq!(get_round_choices(&a, 1), vec![(ids[0], Choice::Tails)]);
}

#[test]
fn draws_are_called_for_only_on_a_tie() {
    let env = Env::default();
    let (mut a, _) = arena_in_round_one(4);
    commit(&env, &mut a, 0, Choice::Heads, 1);
    commit(&env, &mut a, 1, Choice::Tails, 2);
    commit(&env, &mut a, 2, Choice::Tails, 3);
    let mut fx = Vec::new();
    reveal_now(&env, &mut a, 0, Choice::Heads, 1, &mut fx).unwrap();
    // One heads, no tails: no tie.
    assert!(!resolve_round_internal_draws(&a));
    reveal_now(&env, &mut a, 1, Choice::Tails, 2, &mut fx).unwrap();
    // One each: a tie, but only once the commit deadline has passed.
    assert!(resolve_round_internal_draws(&a));
    assert!(!resolve_round_draws(&a, 110));
    assert!(resolve_round_draws(&a, 111));
    // A third reveal does not complete the round (four survivors): no draw.
    let digest = compute_commitment(&env, Choice::Tails, &[3u8; 32], &addr(2));
    assert!(!reveal_draws(&a, 115, &addr(2), 1, Choice::Tails, &digest));
    // With the last round reached, the arena closes without a vote.
    let mut b = a.copy();
    b.config = Some(config(1));
    assert!(!resolve_round_internal_draws(&b));
}

#[test]
fn last_reveal_calls_for_a_draw_when_it_ties_the_round() {
    let env = Env::default();
    let (mut a, _) = arena_in_round_one(2);
    commit(&env, &mut a, 0, Choice::Heads, 1);
    commit(&env, &mut a, 1, Choice::Tails, 2);
    let mut fx = Vec::new();
    reveal_now(&env, &mut a, 0, Choice::Heads, 1, &mut fx).unwrap();
    let tails = compute_commitment(&env, Choice::Tails, &[2u8; 32], &addr(1));
    let heads = compute_commitment(&env, Choice::Heads, &[2u8; 32], &addr(1));
    assert!(reveal_draws(&a, 115, &addr(1), 1, Choice::Tails, &tails));
    // A reveal that will be refused calls for no draw.
    assert!(!reveal_draws(&a, 115, &addr(1), 1, Choice::Heads, &heads));
    assert!(!reveal_draws(&a, 110, &addr(1), 1, Choice::Tails, &tails));
}

#[test]
fn checked_reveal_refuses_only_a_full_counter_on_a_recorded_reveal() {
    let env = Env::default();
    let (mut a, ids) = arena_in_round_one(3);
    commit(&env, &mut a, 0, Choice::Heads, 1);
    commit(&env, &mut a, 1, Choice::Tails, 2);
    let mut fx = Vec::new();
    assert_eq!(
        reveal_choice_checked(&env, &mut a, 115, &addr(0), 1, Choice::Heads, &[1u8; 32], 0, &mut fx),
        Some(Ok(()))
    );
    assert_eq!(get_round_choices(&a, 1), vec![(ids[0], Choice::Heads)]);
    a.round = Some(RoundState { total_submissions: u32::MAX, ..a.round.unwrap() });
    let before = a.copy();
    fx.clear();
    assert_eq!(
        reveal_choice_checked(&env, &mut a, 115, &addr(1), 1, Choice::Heads, &[2u8; 32], 0, &mut fx),
        Some(Err(ArenaError::CommitmentMismatch))
    );
    assert_eq!(reveal_choice_checked(&env, &mut a, 115, &addr(1), 1, Choice::Tails, &[2u8; 32], 0, &mut fx), None);
    assert_eq!(a, before);
    assert!(fx.is_empty());
}
