use vstd::prelude::*;
use crate::arena::{
    address_id_of, finished_of, choice_of, choices_of_round, commitment_keys, commitment_of, first_index, is_survivor,
    lemma_first_index_at, lemma_first_index_generic, player_keys, prize_of, round_keys, set_state_spec, state_of,
    survivor_count_of, yield_of, ArenaModel,
};
use crate::effects::EffectView;
use crate::errors::ArenaError;
use crate::events::{Choice, EVENT_VERSION};
use crate::host::sha256_digest;
use crate::math::{is_tie, lemma_trunc_div_rem, surviving_side_spec, trunc_div, trunc_rem};
use crate::rules::{
    count_choice,
    commit_choice_spec, commitment_preimage_spec, declare_winner_spec, handle_draw_spec, keeps, max_rounds_draw_spec,
    resolve_by_vote_spec, resolve_internal_draws_spec, resolve_internal_spec, resolve_round_draws_spec, reveal_draws_spec, resolve_round_spec, reveal_checks_spec, reveal_choice_spec, reveal_record_spec,
    set_round_choices_spec, share_out, start_round_increments, start_round_spec, timeout_round_spec, survivor_list, sweep, sweep_one, sweep_start, transfers,
    vote_side, Sweep,
};
use crate::state::{AddressId, ArenaState, RoundState, MIN_ARENA_PARTICIPANTS};

verus! {

/// A side survives only if somebody picked it, and some side survives as soon
/// as anybody picked: with picks on both sides and no tie, the smaller side
/// survives; with picks on one side only, that side survives. Only a tie
/// leaves it to chance.
pub proof fn law_surviving_side(heads: u32, tails: u32, random: u64, other: u64)
    ensures
        !is_tie(heads, tails) ==> surviving_side_spec(heads, tails, random) == surviving_side_spec(heads, tails, other),
        surviving_side_spec(heads, tails, random) == Some(Choice::Heads) ==> heads > 0,
        surviving_side_spec(heads, tails, random) == Some(Choice::Tails) ==> tails > 0,
        surviving_side_spec(heads, tails, random) is None <==> (heads == 0 && tails == 0),
        heads > 0 && tails > 0 && heads < tails ==> surviving_side_spec(heads, tails, random) == Some(Choice::Heads),
        heads > 0 && tails > 0 && tails < heads ==> surviving_side_spec(heads, tails, random) == Some(Choice::Tails),
        heads > 0 && tails == 0 ==> surviving_side_spec(heads, tails, random) == Some(Choice::Heads),
        heads == 0 && tails > 0 ==> surviving_side_spec(heads, tails, random) == Some(Choice::Tails),
{
}

/// Setting the arena's state twice in a row is setting it once: the second
/// time changes nothing and tells nobody.
pub proof fn law_set_state_idempotent(m: ArenaModel, s: ArenaState)
    ensures
        set_state_spec(set_state_spec(m, s).0, s) == (set_state_spec(m, s).0, Seq::<crate::effects::EffectView>::empty()),
        state_of(set_state_spec(m, s).0) == s,
{
}

/// A completed or cancelled arena starts no more rounds.
pub proof fn law_terminal_arena_starts_no_round(m: ArenaModel, sequence: u32, timestamp: u64)
    requires
        state_of(m) == ArenaState::Completed || state_of(m) == ArenaState::Cancelled,
    ensures
        start_round_spec(m, sequence, timestamp) matches Err(e) && e == ArenaError::GameAlreadyFinished,
{
}

/// A started round is the next one, open, unfinished and stored; starting the
/// first round makes the arena active.
pub proof fn law_start_round_opens_next(m: ArenaModel, sequence: u32, timestamp: u64)
    requires
        start_round_spec(m, sequence, timestamp) is Ok,
        m.round matches Some(rs) ==> rs.round_number < u32::MAX,
    ensures
        ({
            let (m2, _, r) = start_round_spec(m, sequence, timestamp)->Ok_0;
            &&& r.round_number == m.round->0.round_number + 1
            &&& r.active && !r.finished && !r.timed_out && r.total_submissions == 0
            &&& r.round_start_ledger == sequence && r.round_start == timestamp
            &&& m2.round == Some(r)
            &&& r.round_number == 1 ==> state_of(m2) == ArenaState::Active
            &&& m2.survivors == m.survivors && m2.commitments == m.commitments
        }),
{
}


// ── What the settling steps leave alone ───────────────────────────────────────

proof fn lemma_set_state_keeps(m: ArenaModel, s: ArenaState)
    ensures
        ({
            let m2 = set_state_spec(m, s).0;
            &&& m2.round == m.round
            &&& m2.survivors == m.survivors
            &&& m2.eliminated == m.eliminated
            &&& m2.survivor_count == m.survivor_count
            &&& m2.prize_pool == m.prize_pool
            &&& m2.all_players == m.all_players
            &&& m2.game_finished == m.game_finished
            &&& m2.winners == m.winners
        }),
{
}

proof fn lemma_declare_winner_keeps(m: ArenaModel)
    ensures
        ({
            let m2 = declare_winner_spec(m).0;
            &&& m2.round == m.round
            &&& m2.survivors == m.survivors
            &&& m2.eliminated == m.eliminated
            &&& m2.survivor_count == m.survivor_count
            &&& m2.game_finished == m.game_finished
            &&& m2.all_players == m.all_players
        }),
{
    let sv = survivor_list(m.survivors, m.all_players);
    if sv.len() == 1 {
        let m1 = ArenaModel { winners: m.winners.update(sv[0] as int, true), ..m };
        lemma_set_state_keeps(m1, ArenaState::Completed);
    }
}

proof fn lemma_handle_draw_keeps(m: ArenaModel)
    requires
        handle_draw_spec(m) is Ok,
    ensures
        ({
            let m2 = handle_draw_spec(m)->Ok_0.0;
            &&& m2.round == m.round
            &&& m2.survivors == m.survivors
            &&& m2.eliminated == m.eliminated
            &&& m2.survivor_count == m.survivor_count
            &&& m2.game_finished == m.game_finished
            &&& m2.all_players == m.all_players
        }),
{
    lemma_set_state_keeps(m, ArenaState::Completed);
    lemma_set_state_keeps(ArenaModel { prize_pool: Some(0i128), ..m }, ArenaState::Completed);
}

/// A resolved round is marked finished and stays the current round.
pub proof fn law_resolved_round_is_finished(m: ArenaModel, random: u64)
    requires
        resolve_internal_spec(m, random) is Ok,
    ensures
        ({
            let (m2, _, r) = resolve_internal_spec(m, random)->Ok_0;
            &&& r.finished
            &&& m2.round == Some(r)
            &&& r.round_number == m.round->0.round_number
        }),
{
    let round = m.round->0;
    let config = m.config->0;
    if round.round_number > 0 && round.round_number >= config.max_rounds {
        let survivors = survivor_list(m.survivors, m.all_players);
        let m1 = if survivors.len() > 0 && prize_of(m) > 0 {
            ArenaModel { prize_pool: Some(0i128), ..m }
        } else {
            m
        };
        let round2 = RoundState { finished: true, ..round };
        lemma_set_state_keeps(ArenaModel { game_finished: Some(true), round: Some(round2), ..m1 }, ArenaState::Completed);
    } else {
        lemma_resolve_by_vote_finishes(m, round, vote_side(m, round.round_number, random));
    }
}

proof fn lemma_resolve_by_vote_finishes(m: ArenaModel, round: RoundState, side: Option<Choice>)
    requires
        resolve_by_vote_spec(m, round, side) is Ok,
    ensures
        ({
            let (m2, _, r) = resolve_by_vote_spec(m, round, side)->Ok_0;
            &&& r.finished
            &&& m2.round == Some(r)
            &&& r.round_number == round.round_number
        }),
{
    let choices = choices_of_round(m, round.round_number);
    let sw = sweep(sweep_start(m), m.all_players, side, choices, round.round_number);
    let count = survivor_count_of(m);
    let updated = if count >= sw.gone.len() { (count - sw.gone.len()) as u32 } else { 0u32 };
    let m1 = ArenaModel {
        survivors: sw.survivors,
        eliminated: sw.eliminated,
        survivor_count: Some(updated),
        game_finished: if updated <= 1 { Some(true) } else { m.game_finished },
        ..m
    };
    let m2 = if updated == 1 {
        declare_winner_spec(m1).0
    } else if updated == 0 {
        handle_draw_spec(m1)->Ok_0.0
    } else {
        m1
    };
    let round2 = RoundState { finished: true, ..round };
    lemma_set_state_keeps(ArenaModel { round: Some(round2), ..m2 }, ArenaState::Completed);
}

/// A round is resolved once: resolving again, at any ledger, is refused with
/// `NoActiveRound`.
pub proof fn law_round_resolves_once(m: ArenaModel, sequence: u32, random: u64, sequence2: u32, random2: u64)
    requires
        resolve_round_spec(m, sequence, random) is Ok,
    ensures
        resolve_round_spec(resolve_round_spec(m, sequence, random)->Ok_0.0, sequence2, random2)
            == Err::<(ArenaModel, Seq<EffectView>, RoundState), ArenaError>(ArenaError::NoActiveRound),
{
    let round = m.round->0;
    if round.active {
        law_resolved_round_is_finished(
            ArenaModel { round: Some(RoundState { active: false, timed_out: true, ..round }), ..m },
            random,
        );
    } else {
        law_resolved_round_is_finished(m, random);
    }
}


// ── Who survives a vote ───────────────────────────────────────────────────────

proof fn lemma_sweep(
    acc: Sweep,
    players: Seq<AddressId>,
    side: Option<Choice>,
    choices: Seq<(AddressId, Choice)>,
    round_number: u32,
)
    requires
        acc.survivors.len() == acc.eliminated.len(),
    ensures
        ({
            let sw = sweep(acc, players, side, choices, round_number);
            &&& sw.survivors.len() == acc.survivors.len()
            &&& sw.eliminated.len() == acc.eliminated.len()
            &&& sw.gone.len() <= acc.gone.len() + players.len()
            &&& forall|q: AddressId|
                (q as int) < acc.survivors.len() ==> (#[trigger] sw.survivors[q as int] <==> (acc.survivors[q as int] && (
                !players.contains(q) || keeps(side, choice_of(choices, q)))))
            &&& forall|q: AddressId|
                (q as int) < acc.eliminated.len() ==> (#[trigger] sw.eliminated[q as int] <==> (acc.eliminated[q as int] || (
                acc.survivors[q as int] && !sw.survivors[q as int])))
        }),
    decreases players.len(),
{
    if players.len() > 0 {
        let rest = players.drop_last();
        let p = players.last();
        lemma_sweep(acc, rest, side, choices, round_number);
        let prev = sweep(acc, rest, side, choices, round_number);
        let sw = sweep_one(prev, p, side, choices, round_number);
        assert(players =~= rest.push(p));
        assert forall|q: AddressId| (q as int) < acc.survivors.len() implies (#[trigger] sw.survivors[q as int] <==> (
            acc.survivors[q as int] && (!players.contains(q) || keeps(side, choice_of(choices, q))))) by {
            if q != p {
                if players.contains(q) {
                    let k = choose|k: int| 0 <= k < players.len() && players[k] == q;
                    assert(k != players.len() - 1);
                    assert(rest[k] == q);
                }
                if rest.contains(q) {
                    let k = choose|k: int| 0 <= k < rest.len() && rest[k] == q;
                    assert(players[k] == q);
                }
            } else {
                assert(players[players.len() - 1] == p);
                if rest.contains(q) {
                    let k = choose|k: int| 0 <= k < rest.len() && rest[k] == q;
                    assert(players[k] == q);
                }
            }
        }
    }
}

/// Resolving a round by its votes with `side` surviving: afterwards a player is
/// a survivor exactly when it was one before and, if it is on the player
/// list, it revealed that side (so a player who revealed nothing, or a round
/// where no side survives, keeps nobody on the list); every survivor who drops out is marked
/// eliminated; the survivor count does not grow.
pub proof fn law_vote_eliminates_exactly(m: ArenaModel, round: RoundState, side: Option<Choice>)
    requires
        m.survivors.len() == m.eliminated.len(),
        resolve_by_vote_spec(m, round, side) is Ok,
    ensures
        ({
            let m2 = resolve_by_vote_spec(m, round, side)->Ok_0.0;
            let choices = choices_of_round(m, round.round_number);
            &&& m2.survivors.len() == m.survivors.len()
            &&& forall|q: AddressId|
                #![trigger is_survivor(m2, q)]
                q < m.survivors.len() ==> (is_survivor(m2, q) <==> (is_survivor(m, q) && (
                !m.all_players.contains(q) || (side is Some && choice_of(choices, q) == side))))
            &&& forall|q: AddressId|
                #![trigger is_survivor(m2, q)]
                is_survivor(m, q) && !is_survivor(m2, q) ==> m2.eliminated[q as int]
            &&& survivor_count_of(m2) <= survivor_count_of(m)
        }),
{
    let choices = choices_of_round(m, round.round_number);
    let sw = sweep(sweep_start(m), m.all_players, side, choices, round.round_number);
    lemma_sweep(sweep_start(m), m.all_players, side, choices, round.round_number);
    let count = survivor_count_of(m);
    let updated = if count >= sw.gone.len() { (count - sw.gone.len()) as u32 } else { 0u32 };
    let m1 = ArenaModel {
        survivors: sw.survivors,
        eliminated: sw.eliminated,
        survivor_count: Some(updated),
        game_finished: if updated <= 1 { Some(true) } else { m.game_finished },
        ..m
    };
    let m2 = if updated == 1 {
        declare_winner_spec(m1).0
    } else if updated == 0 {
        handle_draw_spec(m1)->Ok_0.0
    } else {
        m1
    };
    lemma_declare_winner_keeps(m1);
    if updated == 0 {
        lemma_handle_draw_keeps(m1);
    }
    let round2 = RoundState { finished: true, ..round };
    lemma_set_state_keeps(ArenaModel { round: Some(round2), ..m2 }, ArenaState::Completed);
    assert forall|q: AddressId|
        #![trigger is_survivor(resolve_by_vote_spec(m, round, side)->Ok_0.0, q)]
        q < m.survivors.len() implies (is_survivor(resolve_by_vote_spec(m, round, side)->Ok_0.0, q) <==> (is_survivor(m, q) && (
        !m.all_players.contains(q) || (side is Some && choice_of(choices, q) == side)))) by {
        assert(sw.survivors[q as int] == (m.survivors[q as int] && (!m.all_players.contains(q) || keeps(side, choice_of(choices, q)))));
        assert(keeps(side, choice_of(choices, q)) == (side is Some && choice_of(choices, q) == side));
    }
    assert forall|q: AddressId|
        #![trigger is_survivor(resolve_by_vote_spec(m, round, side)->Ok_0.0, q)]
        is_survivor(m, q) && !is_survivor(resolve_by_vote_spec(m, round, side)->Ok_0.0, q) implies
        resolve_by_vote_spec(m, round, side)->Ok_0.0.eliminated[q as int] by {
        assert(sw.eliminated[q as int] == (m.eliminated[q as int] || (m.survivors[q as int] && !sw.survivors[q as int])));
    }
}

// ── Where the prize goes ──────────────────────────────────────────────────────

/// The total amount that the transfers among `e` move.
pub open spec fn transferred_total(e: Seq<EffectView>) -> int
    decreases e.len(),
{
    if e.len() == 0 {
        0
    } else {
        transferred_total(e.drop_last()) + match e.last() {
            EffectView::Transfer { amount, .. } => amount as int,
            _ => 0,
        }
    }
}

proof fn lemma_total_concat(a: Seq<EffectView>, b: Seq<EffectView>)
    ensures
        transferred_total(a + b) == transferred_total(a) + transferred_total(b),
    decreases b.len(),
{
    if b.len() > 0 {
        lemma_total_concat(a, b.drop_last());
        assert((a + b).drop_last() =~= a + b.drop_last());
    } else {
        assert(a + b =~= a);
    }
}

proof fn lemma_total_transfers(token: AddressId, recipients: Seq<AddressId>, amount: i128)
    ensures
        transferred_total(transfers(token, recipients, amount)) == recipients.len() * amount,
    decreases recipients.len(),
{
    if recipients.len() > 0 {
        let rest = recipients.drop_last();
        lemma_total_transfers(token, rest, amount);
        assert(transfers(token, recipients, amount).drop_last() =~= transfers(token, rest, amount));
        let t = transfers(token, recipients, amount);
        assert(t.len() > 0);
        assert(t.last() == EffectView::Transfer { token, to: recipients.last(), amount });
        assert(transferred_total(t) == transferred_total(t.drop_last()) + amount as int);
        assert(recipients.len() * amount == rest.len() * amount + amount) by (nonlinear_arith)
            requires
                recipients.len() == rest.len() + 1,
        ;
    } else {
        assert(transfers(token, recipients, amount).len() == 0);
        assert(recipients.len() * amount == 0) by (nonlinear_arith)
            requires
                recipients.len() == 0,
        ;
    }
}

proof fn lemma_set_state_moves_nothing(m: ArenaModel, s: ArenaState)
    ensures
        transferred_total(set_state_spec(m, s).1) == 0,
{
    let e = set_state_spec(m, s).1;
    if state_of(m) == s {
        assert(e.len() == 0);
    } else {
        match (m.factory, m.arena_id) {
            (Some(f), Some(id)) => {
                assert(e.drop_last() =~= Seq::<EffectView>::empty());
                assert(transferred_total(e.drop_last()) == 0);
            },
            _ => {
                assert(e.len() == 0);
            },
        }
    }
}

/// Sharing out a non-negative prize among some recipients moves exactly the
/// prize, and only to them.
pub proof fn law_share_out_moves_whole_prize(token: AddressId, recipients: Seq<AddressId>, prize: i128)
    requires
        recipients.len() > 0,
        prize >= 0,
    ensures
        transferred_total(share_out(token, recipients, prize)) == prize,
        forall|i: int|
            0 <= i < share_out(token, recipients, prize).len() ==> (#[trigger] share_out(token, recipients, prize)[i]
                matches EffectView::Transfer { token: t, to, .. } && t == token && recipients.contains(to)),
{
    let n = recipients.len() as int;
    lemma_trunc_div_rem(prize as int, n);
    let share = trunc_div(prize as int, n) as i128;
    let dust = trunc_rem(prize as int, n) as i128;
    lemma_total_transfers(token, recipients, share);
    let last: Seq<EffectView> = if dust > 0 {
        seq![EffectView::Transfer { token, to: recipients[0], amount: dust }]
    } else {
        seq![]
    };
    lemma_total_concat(transfers(token, recipients, share), last);
    if dust > 0 {
        assert(last.drop_last() =~= Seq::<EffectView>::empty());
        assert(transferred_total(last.drop_last()) == 0);
        assert(last.last() == EffectView::Transfer { token, to: recipients[0], amount: dust });
        assert(transferred_total(last) == dust as int);
    } else {
        assert(transferred_total(last) == 0);
        assert(dust == 0);
    }
    assert(share as int == trunc_div(prize as int, n));
    assert(dust as int == trunc_rem(prize as int, n));
    assert(n * share == share * n) by (nonlinear_arith);
    assert(share_out(token, recipients, prize) == transfers(token, recipients, share) + last);
    let all = share_out(token, recipients, prize);
    assert forall|i: int| 0 <= i < all.len() implies (#[trigger] all[i]
        matches EffectView::Transfer { token: t, to, .. } && t == token && recipients.contains(to)) by {
        if i < n {
            assert(all[i] == EffectView::Transfer { token, to: recipients[i], amount: share });
        } else {
            assert(all[i] == EffectView::Transfer { token, to: recipients[0], amount: dust });
        }
    }
}

/// A draw with a positive prize pool and at least one player pays the whole
/// pool out to the players and empties it.
pub proof fn law_draw_pays_out_whole_pool(m: ArenaModel)
    requires
        handle_draw_spec(m) is Ok,
        m.all_players.len() > 0,
        prize_of(m) > 0,
    ensures
        transferred_total(handle_draw_spec(m)->Ok_0.1) == prize_of(m),
        prize_of(handle_draw_spec(m)->Ok_0.0) == 0,
        state_of(handle_draw_spec(m)->Ok_0.0) == ArenaState::Completed,
{
    let token = m.token->0;
    let m1 = ArenaModel { prize_pool: Some(0i128), ..m };
    law_share_out_moves_whole_prize(token, m.all_players, prize_of(m));
    lemma_set_state_moves_nothing(m1, ArenaState::Completed);
    lemma_total_concat(share_out(token, m.all_players, prize_of(m)), set_state_spec(m1, ArenaState::Completed).1);
    lemma_set_state_keeps(m1, ArenaState::Completed);
}

/// Closing after the last allowed round with survivors and a positive prize
/// pool pays the whole pool out to the survivors and empties it.
pub proof fn law_last_round_pays_out_whole_pool(m: ArenaModel, round: RoundState)
    requires
        max_rounds_draw_spec(m, round) is Ok,
        survivor_list(m.survivors, m.all_players).len() > 0,
        prize_of(m) > 0,
    ensures
        transferred_total(max_rounds_draw_spec(m, round)->Ok_0.1) == prize_of(m),
        prize_of(max_rounds_draw_spec(m, round)->Ok_0.0) == 0,
{
    let token = m.token->0;
    let survivors = survivor_list(m.survivors, m.all_players);
    let m1 = ArenaModel { prize_pool: Some(0i128), ..m };
    let round2 = RoundState { finished: true, ..round };
    let m2 = ArenaModel { game_finished: Some(true), round: Some(round2), ..m1 };
    law_share_out_moves_whole_prize(token, survivors, prize_of(m));
    lemma_set_state_moves_nothing(m2, ArenaState::Completed);
    lemma_total_concat(share_out(token, survivors, prize_of(m)), set_state_spec(m2, ArenaState::Completed).1);
    lemma_set_state_keeps(m2, ArenaState::Completed);
}


// ── Commit, then reveal ───────────────────────────────────────────────────────

proof fn lemma_first_index_push<K>(keys: Seq<K>, k: K)
    requires
        first_index(keys, k) == -1,
    ensures
        first_index(keys.push(k), k) == keys.len(),
{
    lemma_first_index_generic(keys, k);
    let keys2 = keys.push(k);
    assert forall|j: int| 0 <= j < keys.len() implies keys2[j] != k by {
        assert(keys2[j] == keys[j]);
    }
    lemma_first_index_at(keys2, k, keys.len() as int);
}

pub(crate) proof fn lemma_choices_after_set(m: ArenaModel, r: u32, list: Seq<(AddressId, Choice)>)
    ensures
        choices_of_round(set_round_choices_spec(m, r, list), r) == list,
{
    let keys = round_keys(m.round_choices);
    lemma_first_index_generic(keys, r);
    let i = first_index(keys, r);
    let m2 = set_round_choices_spec(m, r, list);
    if i >= 0 {
        assert(round_keys(m2.round_choices) =~= keys);
    } else {
        assert(round_keys(m2.round_choices) =~= keys.push(r));
        lemma_first_index_push(keys, r);
    }
}

proof fn lemma_choice_after_push(choices: Seq<(AddressId, Choice)>, p: AddressId, c: Choice)
    requires
        choice_of(choices, p) is None,
    ensures
        choice_of(choices.push((p, c)), p) == Some(c),
{
    lemma_first_index_generic(player_keys(choices), p);
    assert(player_keys(choices.push((p, c))) =~= player_keys(choices).push(p));
    lemma_first_index_push(player_keys(choices), p);
}

/// Reading a round's choices gives back what was last stored for that round,
/// storing leaves every other round as it was, and a round for which nothing
/// was ever stored reads as empty.
pub proof fn law_round_choices_read_back(m: ArenaModel, round: u32, list: Seq<(AddressId, Choice)>, other: u32)
    ensures
        choices_of_round(set_round_choices_spec(m, round, list), round) == list,
        other != round ==> choices_of_round(set_round_choices_spec(m, round, list), other) == choices_of_round(m, other),
        !round_keys(m.round_choices).contains(round) ==> choices_of_round(m, round) == Seq::<(AddressId, Choice)>::empty(),
{
    lemma_choices_after_set(m, round, list);
    let keys = round_keys(m.round_choices);
    lemma_first_index_generic(keys, round);
    lemma_first_index_generic(keys, other);
    if !keys.contains(round) {
        assert(first_index(keys, round) == -1);
    }
    if other != round {
        let i = first_index(keys, round);
        let j = first_index(keys, other);
        let m2 = set_round_choices_spec(m, round, list);
        let keys2 = round_keys(m2.round_choices);
        if i >= 0 {
            assert(keys2 =~= keys);
            if j >= 0 {
                assert(j != i);
                assert(m2.round_choices[j] == m.round_choices[j]);
            }
        } else {
            assert(keys2 =~= keys.push(round));
            if j >= 0 {
                assert forall|k: int| 0 <= k < j implies keys2[k] != other by {
                    assert(keys2[k] == keys[k]);
                }
                assert(keys2[j] == keys[j]);
                lemma_first_index_at(keys2, other, j);
                assert(m2.round_choices[j] == m.round_choices[j]);
            } else {
                assert forall|k: int| 0 <= k < keys2.len() implies keys2[k] != other by {
                    if k < keys.len() {
                        assert(keys2[k] == keys[k]);
                    }
                }
                lemma_first_index_generic(keys2, other);
            }
        }
    }
}

/// A commitment made for the current round is found again by the checks of a
/// reveal in the reveal window, and a reveal whose seal opens to it records
/// the revealed choice. When that reveal does not complete the round, the
/// whole reveal succeeds, whatever the random draw, and the round's choices
/// then give the player's choice.
pub proof fn law_commit_then_reveal(
    m: ArenaModel,
    commit_at: u32,
    reveal_at: u32,
    player: Seq<u8>,
    round_number: u32,
    choice: Choice,
    nonce: Seq<u8>,
    random: u64,
)
    requires
        commit_choice_spec(m, commit_at, player, round_number, sha256_digest(commitment_preimage_spec(choice, nonce, player))) is Ok,
        m.config is Some,
        m.round->0.round_deadline_ledger < reveal_at,
        reveal_at <= m.round->0.round_deadline_ledger + m.config->0.round_speed_in_ledgers <= u32::MAX,
        choice_of(choices_of_round(m, round_number), address_id_of(m, player)->0) is None,
        m.round->0.total_submissions < u32::MAX,
    ensures
        ({
            let c = sha256_digest(commitment_preimage_spec(choice, nonce, player));
            let m1 = commit_choice_spec(m, commit_at, player, round_number, c)->Ok_0.0;
            let p = address_id_of(m, player)->0;
            &&& reveal_checks_spec(m1, reveal_at, player, round_number) == Ok::<(AddressId, Seq<u8>), ArenaError>((p, c))
            &&& reveal_record_spec(m1, m1.round->0, p, choice, c, c) is Ok
            &&& choice_of(choices_of_round(reveal_record_spec(m1, m1.round->0, p, choice, c, c)->Ok_0.0, round_number), p)
                == Some(choice)
        }),
        ({
            let c = sha256_digest(commitment_preimage_spec(choice, nonce, player));
            let m1 = commit_choice_spec(m, commit_at, player, round_number, c)->Ok_0.0;
            let p = address_id_of(m, player)->0;
            let s = survivor_count_of(m);
            let revealed = reveal_choice_spec(m1, reveal_at, player, round_number, choice, c, random);
            (s == 0 || m.round->0.total_submissions + 1 < s) ==> {
                &&& revealed is Ok
                &&& choice_of(choices_of_round(revealed->Ok_0.0, round_number), p) == Some(choice)
            }
        }),
{
    let c = sha256_digest(commitment_preimage_spec(choice, nonce, player));
    let m1 = commit_choice_spec(m, commit_at, player, round_number, c)->Ok_0.0;
    let p = address_id_of(m, player)->0;
    let keys = commitment_keys(m.commitments);
    assert(commitment_of(m, round_number, p) is None);
    lemma_first_index_generic(keys, (round_number, p));
    assert(commitment_keys(m1.commitments) =~= keys.push((round_number, p)));
    lemma_first_index_push(keys, (round_number, p));
    assert(commitment_of(m1, round_number, p) == Some(c));
    assert(address_id_of(m1, player) == Some(p));
    let choices = choices_of_round(m1, round_number);
    assert(choices == choices_of_round(m, round_number));
    lemma_choices_after_set(m1, round_number, choices.push((p, choice)));
    lemma_choice_after_push(choices, p, choice);
}

/// A player commits once per round: a second commitment in the commit window
/// is refused with `AlreadyCommitted`.
pub proof fn law_commit_once(
    m: ArenaModel,
    first_at: u32,
    second_at: u32,
    player: Seq<u8>,
    round_number: u32,
    first: Seq<u8>,
    second: Seq<u8>,
)
    requires
        commit_choice_spec(m, first_at, player, round_number, first) is Ok,
        second_at <= m.round->0.round_deadline_ledger,
    ensures
        commit_choice_spec(commit_choice_spec(m, first_at, player, round_number, first)->Ok_0.0, second_at, player, round_number, second)
            == Err::<(ArenaModel, Seq<EffectView>, ()), ArenaError>(ArenaError::AlreadyCommitted),
{
    let m1 = commit_choice_spec(m, first_at, player, round_number, first)->Ok_0.0;
    let p = address_id_of(m, player)->0;
    let keys = commitment_keys(m.commitments);
    lemma_first_index_generic(keys, (round_number, p));
    assert(commitment_keys(m1.commitments) =~= keys.push((round_number, p)));
    lemma_first_index_push(keys, (round_number, p));
    assert(address_id_of(m1, player) == Some(p));
}

/// A player reveals once per round: once a choice is recorded, recording
/// another for the same player and round is refused with
/// `SubmissionAlreadyExists`.
pub proof fn law_reveal_once(
    m: ArenaModel,
    round: RoundState,
    p: AddressId,
    choice: Choice,
    digest: Seq<u8>,
    commitment: Seq<u8>,
    round2: RoundState,
    choice2: Choice,
    digest2: Seq<u8>,
)
    requires
        reveal_record_spec(m, round, p, choice, digest, commitment) is Ok,
        round2.round_number == round.round_number,
    ensures
        reveal_record_spec(reveal_record_spec(m, round, p, choice, digest, commitment)->Ok_0.0, round2, p, choice2, digest2, digest2)
            == Err::<(ArenaModel, Seq<EffectView>, bool), ArenaError>(ArenaError::SubmissionAlreadyExists),
{
    let choices = choices_of_round(m, round.round_number);
    let m1 = set_round_choices_spec(m, round.round_number, choices.push((p, choice)));
    lemma_choices_after_set(m, round.round_number, choices.push((p, choice)));
    lemma_choice_after_push(choices, p, choice);
    let m2 = reveal_record_spec(m, round, p, choice, digest, commitment)->Ok_0.0;
    assert(m2.round_choices == m1.round_choices);
    assert(choices_of_round(m2, round.round_number) == choices_of_round(m1, round.round_number));
}


// ── Winning, and what chance decides ──────────────────────────────────────────

/// With exactly one survivor among the players, that survivor is marked
/// winner, the win is announced, its payout is requested, and the arena
/// completes.
pub proof fn law_lone_survivor_wins(m: ArenaModel)
    requires
        survivor_list(m.survivors, m.all_players).len() == 1,
    ensures
        ({
            let w = survivor_list(m.survivors, m.all_players)[0];
            let (m2, e) = declare_winner_spec(m);
            &&& m2.winners == m.winners.update(w as int, true)
            &&& state_of(m2) == ArenaState::Completed
            &&& e.contains(EffectView::Payout { winner: w, prize_pool: prize_of(m), yield_earned: yield_of(m) })
        }),
{
    let w = survivor_list(m.survivors, m.all_players)[0];
    let m1 = ArenaModel { winners: m.winners.update(w as int, true), ..m };
    lemma_set_state_keeps(m1, ArenaState::Completed);
    let e = declare_winner_spec(m).1;
    assert(e[2] == EffectView::Payout { winner: w, prize_pool: prize_of(m), yield_earned: yield_of(m) });
}

// ── What each operation answers ───────────────────────────────────────────────

/// Committing succeeds exactly for a known survivor who has not committed in
/// the current, active round, up to its commit deadline, whatever it committed
/// in earlier rounds; the commitment is then kept for that round and player,
/// and nothing else changes but the list of commitments.
pub proof fn law_survivor_may_commit(m: ArenaModel, sequence: u32, player: Seq<u8>, round_number: u32, c: Seq<u8>)
    ensures
        commit_choice_spec(m, sequence, player, round_number, c) is Ok <==> {
            &&& m.round matches Some(r) && r.active && r.round_number == round_number && sequence
                <= r.round_deadline_ledger
            &&& address_id_of(m, player) matches Some(p) && is_survivor(m, p) && commitment_of(m, round_number, p) is None
        },
        commit_choice_spec(m, sequence, player, round_number, c) matches Ok((m2, _, _)) ==> {
            &&& commitment_of(m2, round_number, address_id_of(m, player)->0) == Some(c)
            &&& m2 == ArenaModel { commitments: m2.commitments, ..m }
        },
{
    if commit_choice_spec(m, sequence, player, round_number, c) is Ok {
        let p = address_id_of(m, player)->0;
        let keys = commitment_keys(m.commitments);
        let m2 = commit_choice_spec(m, sequence, player, round_number, c)->Ok_0.0;
        lemma_first_index_generic(keys, (round_number, p));
        assert(commitment_keys(m2.commitments) =~= keys.push((round_number, p)));
        lemma_first_index_push(keys, (round_number, p));
    }
}

/// Starting a round succeeds exactly when every check passes (see
/// `start_round_increments`); the new round's commit deadline is `speed`
/// ledgers after the start, its reveal deadline `speed` more, and its time
/// deadline `duration` seconds after the start.
pub proof fn law_start_round_answers(m: ArenaModel, sequence: u32, timestamp: u64)
    ensures
        start_round_spec(m, sequence, timestamp) is Ok <==> start_round_increments(m, sequence, timestamp),
        survivor_count_of(m) < MIN_ARENA_PARTICIPANTS ==> start_round_spec(m, sequence, timestamp) is Err,
        m.round matches Some(r) && r.active ==> start_round_spec(m, sequence, timestamp) is Err,
        start_round_spec(m, sequence, timestamp) matches Ok((_, e, r)) ==> {
            let c = m.config->0;
            &&& r.round_deadline_ledger == sequence + c.round_speed_in_ledgers
            &&& r.round_deadline == timestamp + c.round_duration_seconds
            &&& e.last() == EffectView::RoundStarted {
                round_number: r.round_number,
                start_ledger: sequence,
                commit_deadline_ledger: r.round_deadline_ledger,
                reveal_deadline_ledger: (sequence + 2 * c.round_speed_in_ledgers) as u32,
                version: EVENT_VERSION,
            }
        },
{
}

/// A reveal is refused outside its window and without a matching
/// commitment: at or before the commit deadline, after the reveal deadline
/// (`speed` ledgers later), for a player with no commitment in the round, and
/// for a seal that does not open to the commitment.
pub proof fn law_reveal_refusals(
    m: ArenaModel,
    sequence: u32,
    player: Seq<u8>,
    round_number: u32,
    choice: Choice,
    digest: Seq<u8>,
    random: u64,
)
    requires
        m.round matches Some(r) && r.active && r.round_number == round_number,
        m.config is Some,
        m.round->0.round_deadline_ledger + m.config->0.round_speed_in_ledgers <= u32::MAX,
    ensures
        ({
            let r = m.round->0;
            let last = r.round_deadline_ledger + m.config->0.round_speed_in_ledgers;
            let out = reveal_choice_spec(m, sequence, player, round_number, choice, digest, random);
            let open = r.round_deadline_ledger < sequence <= last;
            &&& sequence <= r.round_deadline_ledger ==> out == Err::<(ArenaModel, Seq<EffectView>, ()), ArenaError>(
                ArenaError::SubmissionWindowClosed,
            )
            &&& sequence > last ==> out == Err::<(ArenaModel, Seq<EffectView>, ()), ArenaError>(
                ArenaError::RevealDeadlinePassed,
            )
            &&& open && (address_id_of(m, player) is None || commitment_of(m, round_number, address_id_of(m, player)->0)
                is None) ==> out == Err::<(ArenaModel, Seq<EffectView>, ()), ArenaError>(ArenaError::NoCommitment)
            &&& open && (address_id_of(m, player) matches Some(p) && commitment_of(m, round_number, p) matches Some(cm)
                && cm != digest) ==> out == Err::<(ArenaModel, Seq<EffectView>, ()), ArenaError>(
                ArenaError::CommitmentMismatch,
            )
        }),
{
}

proof fn lemma_survivor_list_flagged(flags: Seq<bool>, players: Seq<AddressId>)
    ensures
        forall|k: int|
            0 <= k < survivor_list(flags, players).len() ==> #[trigger] survivor_list(flags, players)[k] < flags.len()
                && flags[survivor_list(flags, players)[k] as int],
    decreases players.len(),
{
    if players.len() > 0 {
        let rest = survivor_list(flags, players.drop_last());
        lemma_survivor_list_flagged(flags, players.drop_last());
        let l = survivor_list(flags, players);
        assert forall|k: int| 0 <= k < l.len() implies #[trigger] l[k] < flags.len() && flags[l[k] as int] by {
            if k < rest.len() {
                assert(l[k] == rest[k]);
            }
        }
    }
}

/// Resolving a round by its votes ends the game exactly when at most one
/// survivor is counted afterwards: then the game is finished and the arena
/// completes, a single listed survivor being marked winner; with two or more
/// counted the game goes on, with no winner marked, the prize pool untouched
/// and the arena's state as it was.
pub proof fn law_vote_ends_game_only_at_one_or_none(m: ArenaModel, round: RoundState, side: Option<Choice>)
    requires
        m.winners.len() == m.survivors.len() == m.eliminated.len(),
        resolve_by_vote_spec(m, round, side) is Ok,
    ensures
        ({
            let m2 = resolve_by_vote_spec(m, round, side)->Ok_0.0;
            let n = survivor_count_of(m2);
            let listed = survivor_list(m2.survivors, m2.all_players);
            &&& n <= 1 ==> finished_of(m2) && state_of(m2) == ArenaState::Completed
            &&& n == 1 && listed.len() == 1 ==> m2.winners[listed[0] as int]
            &&& n >= 2 ==> {
                &&& m2.game_finished == m.game_finished
                &&& m2.winners == m.winners
                &&& m2.prize_pool == m.prize_pool
                &&& !finished_of(m) ==> state_of(m2) == state_of(m)
            }
        }),
{
    let choices = choices_of_round(m, round.round_number);
    let sw = sweep(sweep_start(m), m.all_players, side, choices, round.round_number);
    let count = survivor_count_of(m);
    let updated = if count >= sw.gone.len() { (count - sw.gone.len()) as u32 } else { 0u32 };
    let m1 = ArenaModel {
        survivors: sw.survivors,
        eliminated: sw.eliminated,
        survivor_count: Some(updated),
        game_finished: if updated <= 1 { Some(true) } else { m.game_finished },
        ..m
    };
    let round2 = RoundState { finished: true, ..round };
    let m2 = if updated == 1 {
        declare_winner_spec(m1).0
    } else if updated == 0 {
        handle_draw_spec(m1)->Ok_0.0
    } else {
        m1
    };
    if updated == 1 {
        let sv = survivor_list(m1.survivors, m1.all_players);
        if sv.len() == 1 {
            lemma_sweep(sweep_start(m), m.all_players, side, choices, round.round_number);
            lemma_survivor_list_flagged(m1.survivors, m1.all_players);
            assert(sv[0] < m1.survivors.len());
            let mw = ArenaModel { winners: m1.winners.update(sv[0] as int, true), ..m1 };
            lemma_set_state_keeps(mw, ArenaState::Completed);
            assert(m2.winners[sv[0] as int]);
        }
        lemma_declare_winner_keeps(m1);
    } else if updated == 0 {
        lemma_handle_draw_keeps(m1);
    }
    let m3 = ArenaModel { round: Some(round2), ..m2 };
    lemma_set_state_keeps(m3, ArenaState::Completed);
    law_set_state_idempotent(m3, ArenaState::Completed);
    let m4 = if finished_of(m3) { set_state_spec(m3, ArenaState::Completed).0 } else { m3 };
    assert(resolve_by_vote_spec(m, round, side)->Ok_0.0 == m4);
}

/// Timing out an overdue round succeeds exactly when the round is active and
/// its commit deadline has passed, and it only clears the round's active flag
/// and sets its timed-out flag: the round stays unfinished, to be resolved.
pub proof fn law_timeout_only_closes(m: ArenaModel, sequence: u32)
    ensures
        timeout_round_spec(m, sequence) is Ok <==> (m.round matches Some(r) && r.active && sequence
            > r.round_deadline_ledger),
        timeout_round_spec(m, sequence) matches Ok((m2, _, r2)) ==> {
            &&& r2 == RoundState { active: false, timed_out: true, ..m.round->0 }
            &&& r2.finished == m.round->0.finished
            &&& r2.round_number == m.round->0.round_number
            &&& m2 == ArenaModel { round: Some(r2), ..m }
        },
{
}

/// Resolving the current round: a finished round is refused; an active round
/// is refused until its commit deadline has passed and is then closed as
/// timed out and resolved; a round that is no longer active but not finished
/// (say, timed out) is resolved as it stands, at any ledger.
pub proof fn law_resolve_round_answers(m: ArenaModel, sequence: u32, random: u64)
    requires
        m.round is Some,
    ensures
        ({
            let r = m.round->0;
            &&& r.finished ==> resolve_round_spec(m, sequence, random) == Err::<
                (ArenaModel, Seq<EffectView>, RoundState),
                ArenaError,
            >(ArenaError::NoActiveRound)
            &&& !r.finished && r.active && sequence <= r.round_deadline_ledger ==> resolve_round_spec(m, sequence, random)
                == Err::<(ArenaModel, Seq<EffectView>, RoundState), ArenaError>(ArenaError::RoundStillOpen)
            &&& !r.finished && r.active && sequence > r.round_deadline_ledger ==> resolve_round_spec(m, sequence, random)
                == resolve_internal_spec(
                ArenaModel { round: Some(RoundState { active: false, timed_out: true, ..r }), ..m },
                random,
            )
            &&& !r.finished && !r.active ==> resolve_round_spec(m, sequence, random) == resolve_internal_spec(m, random)
        }),
{
}

/// A round that times out unfinished is resolved afterwards: resolving it at
/// any ledger does what resolving the closed round does.
pub proof fn law_timed_out_round_is_resolved(m: ArenaModel, sequence: u32, later: u32, random: u64)
    requires
        timeout_round_spec(m, sequence) is Ok,
    ensures
        ({
            let m2 = timeout_round_spec(m, sequence)->Ok_0.0;
            !m.round->0.finished ==> resolve_round_spec(m2, later, random) == resolve_internal_spec(m2, random)
        }),
{
}

/// Resolving the current round: before the configured maximum round it is
/// resolved by its votes, the side that survives being the one the revealed
/// counts give (see `law_surviving_side`); from the maximum round on, the
/// arena closes as a draw among the survivors.
pub proof fn law_resolve_by_votes_below_maximum(m: ArenaModel, random: u64)
    requires
        m.round is Some,
        m.config is Some,
    ensures
        ({
            let r = m.round->0;
            let choices = choices_of_round(m, r.round_number);
            let side = surviving_side_spec(
                count_choice(choices, Choice::Heads) as u32,
                count_choice(choices, Choice::Tails) as u32,
                random,
            );
            &&& (r.round_number == 0 || r.round_number < m.config->0.max_rounds) ==> resolve_internal_spec(m, random)
                == resolve_by_vote_spec(m, r, side)
            &&& (r.round_number > 0 && r.round_number >= m.config->0.max_rounds) ==> resolve_internal_spec(m, random)
                == max_rounds_draw_spec(m, r)
        }),
{
}


/// The drawn number only matters where a draw is called for: when resolving
/// the current round needs no draw (its revealed sides do not tie, or the
/// last round has been reached), any two numbers give the same outcome.
pub proof fn law_chance_only_breaks_ties(m: ArenaModel, random1: u64, random2: u64)
    requires
        !resolve_internal_draws_spec(m),
    ensures
        resolve_internal_spec(m, random1) == resolve_internal_spec(m, random2),
{
    if m.round is Some && m.config is Some && !(m.round->0.round_number > 0 && m.round->0.round_number
        >= m.config->0.max_rounds) {
        assert(vote_side(m, m.round->0.round_number, random1) == vote_side(m, m.round->0.round_number, random2));
    }
}

/// Resolving the current round at a ledger that calls for no draw gives the
/// same outcome whatever number is passed.
pub proof fn law_resolve_round_draws_only_on_tie(m: ArenaModel, sequence: u32, random1: u64, random2: u64)
    requires
        !resolve_round_draws_spec(m, sequence),
    ensures
        resolve_round_spec(m, sequence, random1) == resolve_round_spec(m, sequence, random2),
{
    if let Some(round) = m.round {
        if !round.finished && round.active && sequence > round.round_deadline_ledger {
            let m1 = ArenaModel { round: Some(RoundState { active: false, timed_out: true, ..round }), ..m };
            assert(choices_of_round(m1, round.round_number) == choices_of_round(m, round.round_number));
            law_chance_only_breaks_ties(m1, random1, random2);
        } else if !round.finished && !round.active {
            law_chance_only_breaks_ties(m, random1, random2);
        }
    }
}

/// A reveal that calls for no draw gives the same outcome whatever number is
/// passed.
pub proof fn law_reveal_draws_only_on_tie(
    m: ArenaModel,
    sequence: u32,
    player: Seq<u8>,
    round_number: u32,
    choice: Choice,
    digest: Seq<u8>,
    random1: u64,
    random2: u64,
)
    requires
        !reveal_draws_spec(m, sequence, player, round_number, choice, digest),
    ensures
        reveal_choice_spec(m, sequence, player, round_number, choice, digest, random1) == reveal_choice_spec(
            m,
            sequence,
            player,
            round_number,
            choice,
            digest,
            random2,
        ),
{
    if let Ok((p, c)) = reveal_checks_spec(m, sequence, player, round_number) {
        if let Ok((m1, _, due)) = reveal_record_spec(m, m.round->0, p, choice, digest, c) {
            if due {
                law_chance_only_breaks_ties(m1, random1, random2);
            }
        }
    }
}

} // verus!
