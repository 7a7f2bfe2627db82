use vstd::prelude::*;
use crate::errors::ArenaError;
use crate::events::Choice;

verus! {

/// Quotient of `a` by `b > 0` rounded toward zero, as Rust's `/` computes it.
pub open spec fn trunc_div(a: int, b: int) -> int {
    if a >= 0 { a / b } else { -((-a) / b) }
}

/// Remainder of `a` by `b > 0` that goes with `trunc_div`: it has the sign of `a`.
pub open spec fn trunc_rem(a: int, b: int) -> int {
    if a >= 0 { a % b } else { -((-a) % b) }
}

/// The quotient and remainder rounded toward zero put `a` back together, and
/// the remainder is smaller than the divisor in size.
pub proof fn lemma_trunc_div_rem(a: int, b: int)
    requires
        b > 0,
    ensures
        trunc_div(a, b) * b + trunc_rem(a, b) == a,
        a >= 0 ==> 0 <= trunc_rem(a, b) < b,
        a < 0 ==> -b < trunc_rem(a, b) <= 0,
        a >= 0 ==> 0 <= trunc_div(a, b) <= a,
        a < 0 ==> a <= trunc_div(a, b) <= 0,
{
    if a >= 0 {
        vstd::arithmetic::div_mod::lemma_fundamental_div_mod(a, b);
        vstd::arithmetic::div_mod::lemma_mod_bound(a, b);
        vstd::arithmetic::div_mod::lemma_div_pos_is_pos(a, b);
        vstd::arithmetic::div_mod::lemma_div_is_ordered_by_denominator(a, 1, b);
        assert(b * (a / b) == (a / b) * b) by (nonlinear_arith);
    } else {
        vstd::arithmetic::div_mod::lemma_fundamental_div_mod(-a, b);
        vstd::arithmetic::div_mod::lemma_mod_bound(-a, b);
        vstd::arithmetic::div_mod::lemma_div_pos_is_pos(-a, b);
        vstd::arithmetic::div_mod::lemma_div_is_ordered_by_denominator(-a, 1, b);
        assert(b * ((-a) / b) == ((-a) / b) * b) by (nonlinear_arith);
        assert(-((-a) / b) * b == -(((-a) / b) * b)) by (nonlinear_arith);
    }
}

/// Splits `total` into `count` equal shares: the share and what is left over.
/// A count of zero is refused with `InvalidAmount`.
pub fn split_prize(total: i128, count: u32) -> (r: Result<(i128, i128), ArenaError>)
    ensures
        count == 0 ==> r == Err::<(i128, i128), ArenaError>(ArenaError::InvalidAmount),
        count > 0 ==> (r matches Ok((share, dust)) && share == trunc_div(total as int, count as int)
            && dust == trunc_rem(total as int, count as int)),
        r matches Ok((share, dust)) ==> share * count + dust == total,
{
    if count == 0 {
        return Err(ArenaError::InvalidAmount);
    }
    let n = count as i128;
    let share = total / n;
    let dust = total % n;
    proof {
        lemma_trunc_div_rem(total as int, count as int);
    }
    Ok((share, dust))
}

/// The side that survives a round in which `heads` players picked heads and
/// `tails` picked tails: nobody picked, none; one side empty, the other; a
/// tie, heads when `random` is even and tails when odd; else the smaller side.
pub open spec fn surviving_side_spec(heads: u32, tails: u32, random: u64) -> Option<Choice> {
    if heads == 0 && tails == 0 {
        None
    } else if heads == 0 {
        Some(Choice::Tails)
    } else if tails == 0 {
        Some(Choice::Heads)
    } else if heads == tails {
        if random % 2 == 0 { Some(Choice::Heads) } else { Some(Choice::Tails) }
    } else if heads < tails {
        Some(Choice::Heads)
    } else {
        Some(Choice::Tails)
    }
}

/// A tie between two sides that were both picked: the one case in which
/// chance decides which side survives.
pub open spec fn is_tie(heads: u32, tails: u32) -> bool {
    heads == tails && heads > 0
}

/// The surviving side for the given counts, `random` deciding a tie (see
/// `surviving_side_spec`). The caller draws `random` from the ledger's
/// generator when the counts tie, and only then.
pub fn choose_surviving_side(heads: u32, tails: u32, random: u64) -> (r: Option<Choice>)
    ensures
        r == surviving_side_spec(heads, tails, random),
{
    if heads == 0 && tails == 0 {
        None
    } else if heads == 0 {
        Some(Choice::Tails)
    } else if tails == 0 {
        Some(Choice::Heads)
    } else if heads == tails {
        let bit = random & 1;
        assert(bit == random % 2) by (bit_vector)
            requires
                bit == random & 1,
        ;
        if bit == 0 {
            Some(Choice::Heads)
        } else {
            Some(Choice::Tails)
        }
    } else if heads < tails {
        Some(Choice::Heads)
    } else {
        Some(Choice::Tails)
    }
}

} // verus!
