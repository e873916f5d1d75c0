//! Properties that hold across calls of the pool's operations.
use vstd::prelude::*;

use crate::ledger::{
    has_player, index_of, lemma_index_of_unique, lemma_total_nonneg, stake_of, total, unique_players,
};
use crate::payout::{
    is_solo_underdog, lemma_round_div_error, proportional_settlements,
    round_div, settlements, sum_amounts,
};
use crate::player::PlayerUuid;
use crate::set2::{
    balance_after, bet_or_raise_result, bet_result, ledger_after_bet, ledger_after_bet_or_raise,
    raise_result, Set2Side, Set2View, BetError,
};
use crate::Currency;

verus! {

/// A bet, a raise or a bet-or-raise never takes more than the player holds:
/// the balance afterwards lies between zero and the balance before.
pub proof fn lemma_balance_never_negative(
    l: Seq<(PlayerUuid, Currency)>,
    p: PlayerUuid,
    balance: Currency,
    amount: Currency,
)
    ensures
        0 <= balance_after(bet_result(l, p, balance, amount), balance, amount) <= balance,
        0 <= balance_after(raise_result(l, p, balance, amount), balance, amount) <= balance,
        0 <= balance_after(bet_or_raise_result(l, p, balance, amount), balance, amount) <= balance,
{
}

/// Once a player has bet on a side, another bet of theirs on that side fails,
/// with `PlayerExists` whenever their balance covers it; and a raise on the
/// other side, where they have not bet, fails, with `PlayerNotExists` whenever
/// their balance covers it.
pub proof fn lemma_bet_is_exclusive(
    v: Set2View,
    side: Set2Side,
    p: PlayerUuid,
    balance: Currency,
    amount: Currency,
    next_amount: Currency,
)
    requires
        bet_result(v.bets(side), p, balance, amount) is Ok,
        !has_player(v.bets(side.other()), p),
    ensures
        ({
            let after = v.with_bets(side, ledger_after_bet(v.bets(side), p, balance, amount));
            let left = (balance - amount) as Currency;
            &&& bet_result(after.bets(side), p, left, next_amount) is Err
            &&& next_amount <= left ==> bet_result(after.bets(side), p, left, next_amount) == Err::<
                (),
                BetError,
            >(BetError::PlayerExists)
            &&& raise_result(after.bets(side.other()), p, left, next_amount) is Err
            &&& next_amount <= left ==> raise_result(after.bets(side.other()), p, left, next_amount)
                == Err::<(), BetError>(BetError::PlayerNotExists)
        }),
{
    let l = v.bets(side);
    let l2 = l.push((p, amount));
    assert(l2[l.len() as int].0 == p);
}

/// One bet-or-raise that the balance covers, and that does not push the stake
/// past the largest amount, succeeds and adds exactly `amount` to the player's
/// stake on that side; every other stake stays as it was.
pub proof fn lemma_bet_or_raise_adds(
    l: Seq<(PlayerUuid, Currency)>,
    p: PlayerUuid,
    balance: Currency,
    amount: Currency,
)
    requires
        unique_players(l),
        amount <= balance,
        stake_of(l, p) + amount <= Currency::MAX,
    ensures
        ({
            let after = ledger_after_bet_or_raise(l, p, balance, amount);
            &&& bet_or_raise_result(l, p, balance, amount) is Ok
            &&& unique_players(after)
            &&& has_player(after, p)
            &&& stake_of(after, p) == stake_of(l, p) + amount
            &&& forall|q: PlayerUuid| q != p ==> stake_of(after, q) == stake_of(l, q)
        }),
{
    let after = ledger_after_bet_or_raise(l, p, balance, amount);
    if has_player(l, p) {
        let i = index_of(l, p);
        assert(after == l.update(i, (p, (l[i].1 + amount) as Currency)));
        assert(unique_players(after)) by {
            assert forall|a: int, b: int|
                0 <= a < after.len() && 0 <= b < after.len() && #[trigger] after[a].0
                    == #[trigger] after[b].0 implies a == b by {
                assert(l[a].0 == after[a].0);
                assert(l[b].0 == after[b].0);
            }
        }
        lemma_index_of_unique(after, p, i);
        assert forall|q: PlayerUuid| q != p implies stake_of(after, q) == stake_of(l, q) by {
            if has_player(l, q) {
                let j = index_of(l, q);
                lemma_index_of_unique(after, q, j);
            } else if has_player(after, q) {
                let j = index_of(after, q);
                assert(l[j].0 == q);
            }
        }
    } else {
        let n = l.len() as int;
        assert(after == l.push((p, amount)));
        assert(unique_players(after)) by {
            assert forall|a: int, b: int|
                0 <= a < after.len() && 0 <= b < after.len() && #[trigger] after[a].0
                    == #[trigger] after[b].0 implies a == b by {
                if a < n && b == n {
                    assert(l[a].0 == p);
                } else if b < n && a == n {
                    assert(l[b].0 == p);
                }
            }
        }
        lemma_index_of_unique(after, p, n);
        assert forall|q: PlayerUuid| q != p implies stake_of(after, q) == stake_of(l, q) by {
            if has_player(l, q) {
                let j = index_of(l, q);
                lemma_index_of_unique(after, q, j);
            } else if has_player(after, q) {
                let j = index_of(after, q);
                assert(l[j].0 == q);
            }
        }
    }
}

/// Two bet-or-raise calls by one player on one side, whose amounts the
/// balance covers together, both succeed: the player's stake there grows by
/// exactly the sum of the two amounts, and the balance shrinks by exactly that
/// sum, with every other stake left alone. This holds as long as the stake
/// stays within the largest amount, past which a raise clamps.
pub proof fn lemma_bet_or_raise_accumulates(
    l: Seq<(PlayerUuid, Currency)>,
    p: PlayerUuid,
    balance: Currency,
    first: Currency,
    second: Currency,
)
    requires
        unique_players(l),
        first + second <= balance,
        stake_of(l, p) + first + second <= Currency::MAX,
    ensures
        ({
            let r1 = bet_or_raise_result(l, p, balance, first);
            let l1 = ledger_after_bet_or_raise(l, p, balance, first);
            let b1 = (balance - first) as Currency;
            let r2 = bet_or_raise_result(l1, p, b1, second);
            let l2 = ledger_after_bet_or_raise(l1, p, b1, second);
            &&& r1 is Ok
            &&& r2 is Ok
            &&& balance_after(r1, balance, first) == b1
            &&& balance_after(r2, b1, second) == balance - (first + second)
            &&& has_player(l2, p)
            &&& stake_of(l2, p) == stake_of(l, p) + first + second
            &&& forall|q: PlayerUuid| q != p ==> stake_of(l2, q) == stake_of(l, q)
        }),
{
    lemma_bet_or_raise_adds(l, p, balance, first);
    let l1 = ledger_after_bet_or_raise(l, p, balance, first);
    lemma_bet_or_raise_adds(l1, p, (balance - first) as Currency, second);
}

/// Sharing a losing pot `losing_pot` among the entries of `ws`, by a winning
/// pot `winning_pot`, pays out each stake plus its exact proportional share,
/// up to half a unit per entry.
proof fn lemma_proportional_sum(ws: Seq<(PlayerUuid, Currency)>, winning_pot: int, losing_pot: int)
    requires
        winning_pot > 0,
        losing_pot >= 0,
    ensures
        -(ws.len() * winning_pot) <= 2 * winning_pot * (sum_amounts(
            proportional_settlements(ws, winning_pot, losing_pot),
        ) - total(ws)) - 2 * losing_pot * total(ws) <= ws.len() * winning_pot,
    decreases ws.len(),
{
    if ws.len() == 0 {
        assert(proportional_settlements(ws, winning_pot, losing_pot).len() == 0);
        assert(ws.len() * winning_pot == 0);
        assert(sum_amounts(proportional_settlements(ws, winning_pot, losing_pot)) == 0);
        assert(total(ws) == 0);
    } else {
        let init = ws.drop_last();
        lemma_proportional_sum(init, winning_pot, losing_pot);
        let paid = proportional_settlements(ws, winning_pot, losing_pot);
        assert(paid.drop_last() =~= proportional_settlements(init, winning_pot, losing_pot));
        let stake = ws.last().1 as int;
        let share = round_div(stake * losing_pot, winning_pot);
        assert(stake * losing_pot >= 0) by (nonlinear_arith)
            requires
                stake >= 0,
                losing_pot >= 0,
        ;
        lemma_round_div_error(stake * losing_pot, winning_pot);
        assert(paid.last().1 == stake + share);
        let a = sum_amounts(proportional_settlements(init, winning_pot, losing_pot));
        let b = total(init);
        let n = init.len() as int;
        assert(-(n * winning_pot) <= 2 * winning_pot * (a - b) - 2 * losing_pot * b <= n
            * winning_pot);
        assert(-winning_pot <= 2 * winning_pot * share - 2 * (stake * losing_pot) <= winning_pot);
        assert(ws.len() * winning_pot == (n + 1) * winning_pot);
        assert(sum_amounts(paid) == a + stake + share);
        assert(total(ws) == b + stake);
        assert(-((n + 1) * winning_pot) <= 2 * winning_pot * ((a + stake + share) - (b + stake)) - 2
            * losing_pot * (b + stake) <= (n + 1) * winning_pot) by (nonlinear_arith)
            requires
                -(n * winning_pot) <= 2 * winning_pot * (a - b) - 2 * losing_pot * b <= n
                    * winning_pot,
                -winning_pot <= 2 * winning_pot * share - 2 * (stake * losing_pot) <= winning_pot,
        ;
    }
}

/// When the winners share the losing pot (there is no solo underdog) and have
/// staked something, the settlement amounts add up to both pots together, off
/// by at most half a unit per winner from rounding: within one unit per winner.
pub proof fn lemma_payout_conserves_pot(
    winners: Seq<(PlayerUuid, Currency)>,
    losers: Seq<(PlayerUuid, Currency)>,
)
    requires
        !is_solo_underdog(winners, losers),
        total(winners) > 0,
    ensures
        ({
            let paid = sum_amounts(settlements(winners, losers));
            let pot = total(winners) + total(losers);
            let n = winners.len() as int;
            &&& -n <= 2 * (paid - pot) <= n
            &&& -n <= paid - pot <= n
        }),
{
    let w = total(winners);
    let l = total(losers);
    lemma_total_nonneg(losers);
    lemma_proportional_sum(winners, w, l);
    let paid = sum_amounts(settlements(winners, losers));
    let n = winners.len() as int;
    assert(-n <= 2 * (paid - (w + l)) <= n) by (nonlinear_arith)
        requires
            w > 0,
            -(n * w) <= 2 * w * (paid - w) - 2 * l * w <= n * w,
    ;
}

/// Settling reads nothing but the two ledgers: pools whose ledgers agree
/// settle alike, so settling an unchanged pool again gives the same result.
pub proof fn lemma_payout_idempotent(a: Set2View, b: Set2View, winner: Set2Side)
    requires
        a.side_1_bets == b.side_1_bets,
        a.side_2_bets == b.side_2_bets,
    ensures
        settlements(a.bets(winner), a.bets(winner.other())) == settlements(
            b.bets(winner),
            b.bets(winner.other()),
        ),
{
}

} // verus!
