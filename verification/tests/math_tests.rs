use arena::errors::ArenaError;
use arena::events::Choice;
use arena::math::{split_prize, choose_surviving_side};
use arena::state::ArenaState;

#[test]
fn split_prize_even_shares() {
    assert_eq!(split_prize(1000, 2), Ok((500, 0)));
}

#[test]
fn split_prize_leaves_dust() {
    // 1000 / 3 = 333 each, dust = 1
    assert_eq!(split_prize(1000, 3), Ok((333, 1)));
}

#[test]
fn split_prize_single_recipient() {
    assert_eq!(split_prize(777, 1), Ok((777, 0)));
}

#[test]
fn split_prize_zero_count_is_invalid() {
    assert_eq!(split_prize(1000, 0), Err(ArenaError::InvalidAmount));
}

#[test]
fn split_prize_negative_total_rounds_toward_zero() {
    assert_eq!(split_prize(-7, 2), Ok((-3, -1)));
}

#[test]
fn split_prize_conserves_total() {
    for (total, count) in [(1000i128, 3u32), (1i128, 7u32), (999_999i128, 10u32), (-50i128, 3u32)] {
        let (share, dust) = split_prize(total, count).unwrap();
        assert_eq!(share * count as i128 + dust, total);
    }
}

#[test]
fn nobody_picked_no_side_survives() {
    assert_eq!(choose_surviving_side(0, 0, 5), None);
}

#[test]
fn only_tails_picked_tails_survive() {
    assert_eq!(choose_surviving_side(0, 4, 0), Some(Choice::Tails));
}

#[test]
fn only_heads_picked_heads_survive() {
    assert_eq!(choose_surviving_side(3, 0, 1), Some(Choice::Heads));
}

#[test]
fn minority_heads_survive() {
    assert_eq!(choose_surviving_side(1, 3, 0), Some(Choice::Heads));
}

#[test]
fn minority_tails_survive() {
    assert_eq!(choose_surviving_side(5, 2, 1), Some(Choice::Tails));
}

#[test]
fn tie_is_decided_by_parity_of_random() {
    assert_eq!(choose_surviving_side(2, 2, 10), Some(Choice::Heads));
    assert_eq!(choose_surviving_side(2, 2, 11), Some(Choice::Tails));
}

#[test]
fn terminal_states() {
    assert!(ArenaState::Completed.is_terminal_state());
    assert!(ArenaState::Cancelled.is_terminal_state());
    assert!(!ArenaState::Pending.is_terminal_state());
    assert!(!ArenaState::Active.is_terminal_state());
}
