//! How the pot is settled once a side has won.
use vstd::arithmetic::div_mod::{
    lemma_div_is_ordered, lemma_div_multiples_vanish_fancy, lemma_fundamental_div_mod,
    lemma_mod_pos_bound,
};
use vstd::prelude::*;

use crate::ledger::{find_player, has_player, lemma_stake_le_total, total, unique_players};
use crate::player::PlayerUuid;
use crate::Currency;

verus! {

/// `n / d` rounded to the nearest whole number, a half rounded up (for the
/// non-negative amounts settled here: away from zero). Zero when `d` is not
/// positive: there is nothing to share by.
pub open spec fn round_div(n: int, d: int) -> int {
    if d > 0 {
        (n + d / 2) / d
    } else {
        0
    }
}

/// The winning side has a single bettor, who staked less than the whole
/// losing side.
pub open spec fn is_solo_underdog(
    winners: Seq<(PlayerUuid, Currency)>,
    losers: Seq<(PlayerUuid, Currency)>,
) -> bool {
    winners.len() == 1 && total(winners) < total(losers)
}

/// What the solo underdog receives: their stake, plus the losing pot scaled by
/// the ratio of the winning pot to the losing pot.
pub open spec fn solo_winnings(
    winners: Seq<(PlayerUuid, Currency)>,
    losers: Seq<(PlayerUuid, Currency)>,
) -> int {
    winners[0].1 + round_div(total(losers) * total(winners), total(losers))
}

/// What a loser gets back from a solo underdog's win: their stake scaled by
/// one less the ratio of the winning pot to the losing pot.
pub open spec fn underdog_refund(stake: int, winning_pot: int, losing_pot: int) -> int {
    round_div(stake * (losing_pot - winning_pot), losing_pot)
}

/// What a winner receives otherwise: their stake, plus their share of the
/// losing pot in proportion to their part of the winning pot. With an empty
/// winning pot there is no share to compute, and the stake is all.
pub open spec fn proportional_winnings(stake: int, winning_pot: int, losing_pot: int) -> int {
    stake + round_div(stake * losing_pot, winning_pot)
}

/// Each entry of a settlement, with its amount read as an integer.
pub open spec fn as_amounts(r: Seq<(PlayerUuid, Currency)>) -> Seq<(PlayerUuid, int)> {
    r.map_values(|e: (PlayerUuid, Currency)| (e.0, e.1 as int))
}

/// The settlement after a solo underdog's win: every loser, in ledger order,
/// with their refund; the winner comes first with their winnings or, when they
/// also bet on the losing side, has both added up at their place there.
pub open spec fn underdog_settlements(
    winners: Seq<(PlayerUuid, Currency)>,
    losers: Seq<(PlayerUuid, Currency)>,
) -> Seq<(PlayerUuid, int)> {
    let winner = winners[0].0;
    let prize = solo_winnings(winners, losers);
    let refunds = losers.map_values(
        |e: (PlayerUuid, Currency)|
            (
                e.0,
                underdog_refund(e.1 as int, total(winners), total(losers)) + if e.0 == winner {
                    prize
                } else {
                    0
                },
            ),
    );
    if has_player(losers, winner) {
        refunds
    } else {
        seq![(winner, prize)] + refunds
    }
}

/// The settlement when the winners share the losing pot: every winner, in
/// ledger order, with their proportional winnings.
pub open spec fn proportional_settlements(
    winners: Seq<(PlayerUuid, Currency)>,
    winning_pot: int,
    losing_pot: int,
) -> Seq<(PlayerUuid, int)> {
    winners.map_values(
        |e: (PlayerUuid, Currency)| (e.0, proportional_winnings(e.1 as int, winning_pot, losing_pot)),
    )
}

/// The settlement of a pool whose winning side has ledger `winners` and whose
/// losing side has ledger `losers`: who receives how much. Losers receive
/// nothing unless the winner is a solo underdog.
pub open spec fn settlements(
    winners: Seq<(PlayerUuid, Currency)>,
    losers: Seq<(PlayerUuid, Currency)>,
) -> Seq<(PlayerUuid, int)> {
    if is_solo_underdog(winners, losers) {
        underdog_settlements(winners, losers)
    } else {
        proportional_settlements(winners, total(winners), total(losers))
    }
}

/// Scaling `x` by `y / z` with `y <= z` and rounding gives no more than `x`.
pub proof fn lemma_round_div_scaled_le(x: int, y: int, z: int)
    requires
        0 <= x,
        0 <= y <= z,
        0 < z,
    ensures
        0 <= round_div(x * y, z) <= x,
{
    assert(0 <= x * y <= x * z) by (nonlinear_arith)
        requires
            0 <= x,
            0 <= y <= z,
    ;
    lemma_div_multiples_vanish_fancy(x, z / 2, z);
    assert(z * x == x * z) by (nonlinear_arith);
    lemma_div_is_ordered(x * y + z / 2, x * z + z / 2, z);
    lemma_div_is_ordered(0, x * y + z / 2, z);
}

/// Scaling `x` by `z / z` and rounding gives back `x`.
pub proof fn lemma_round_div_cancel(x: int, z: int)
    requires
        0 < z,
    ensures
        round_div(z * x, z) == x,
{
    lemma_div_multiples_vanish_fancy(x, z / 2, z);
}

/// Rounding is off by at most half a unit: `|round_div(n, d) - n / d| <= 1 / 2`.
pub proof fn lemma_round_div_error(n: int, d: int)
    requires
        0 <= n,
        0 < d,
    ensures
        -d <= 2 * d * round_div(n, d) - 2 * n <= d,
{
    let q = (n + d / 2) / d;
    lemma_fundamental_div_mod(n + d / 2, d);
    lemma_mod_pos_bound(n + d / 2, d);
    assert(2 * d * q == 2 * (d * q)) by (nonlinear_arith);
}

/// The sum of the amounts of a settlement.
pub open spec fn sum_amounts(s: Seq<(PlayerUuid, int)>) -> int
    decreases s.len(),
{
    if s.len() == 0 {
        0
    } else {
        sum_amounts(s.drop_last()) + s.last().1
    }
}

/// `round_div(n, d)` for machine integers small enough not to overflow.
pub(crate) fn rounded_quotient(n: u128, d: u128) -> (r: u128)
    requires
        n + d / 2 <= u128::MAX,
    ensures
        r == round_div(n as int, d as int),
{
    if d == 0 {
        0
    } else {
        (n + d / 2) / d
    }
}

/// Settles a solo underdog's win.
pub(crate) fn settle_underdog(
    winners: &Vec<(PlayerUuid, Currency)>,
    losers: &Vec<(PlayerUuid, Currency)>,
    winning_pot: Currency,
    losing_pot: Currency,
) -> (r: Vec<(PlayerUuid, Currency)>)
    requires
        winners@.len() == 1,
        winning_pot == total(winners@),
        losing_pot == total(losers@),
        winning_pot < losing_pot,
        winning_pot + losing_pot <= Currency::MAX,
        unique_players(losers@),
    ensures
        as_amounts(r@) == underdog_settlements(winners@, losers@),
        unique_players(r@),
{
    let ghost w = winners@;
    let ghost l = losers@;
    let (winner, stake) = winners[0];
    proof {
        assert(w.drop_last().len() == 0);
        assert(total(w.drop_last()) == 0);
        assert(w.last() == w[0]);
        assert(stake == winning_pot);
        lemma_round_div_cancel(winning_pot as int, losing_pot as int);
        assert((losing_pot as int) * (winning_pot as int) <= 0xFFFF_FFFF_FFFF_FFFE_0000_0000_0000_0001)
            by (nonlinear_arith)
            requires
                losing_pot <= 0xFFFF_FFFF_FFFF_FFFFu64,
                winning_pot <= 0xFFFF_FFFF_FFFF_FFFFu64,
        ;
    }
    let prize = stake + rounded_quotient(
        losing_pot as u128 * winning_pot as u128,
        losing_pot as u128,
    ) as Currency;
    assert(prize == solo_winnings(w, l));
    let merged = find_player(losers, winner).is_some();
    let ghost offset: int = if merged {
        0
    } else {
        1
    };
    let mut out: Vec<(PlayerUuid, Currency)> = Vec::new();
    if !merged {
        out.push((winner, prize));
    }
    let mut i: usize = 0;
    while i < losers.len()
        invariant
            l == losers@,
            i <= l.len(),
            winning_pot == total(w),
            losing_pot == total(l),
            winning_pot < losing_pot,
            winning_pot + losing_pot <= Currency::MAX,
            prize == solo_winnings(w, l),
            prize == 2 * winning_pot,
            offset == if merged {
                0int
            } else {
                1int
            },
            merged == has_player(l, winner),
            out@.len() == offset + i,
            !merged ==> out@[0] == (winner, prize),
            forall|j: int|
                0 <= j < i ==> #[trigger] out@[offset + j].0 == l[j].0 && out@[offset + j].1
                    == underdog_refund(l[j].1 as int, winning_pot as int, losing_pot as int) + if l[j].0
                    == winner {
                    prize as int
                } else {
                    0
                },
        decreases l.len() - i,
    {
        let (player, stake) = losers[i];
        assert(l[i as int] == (player, stake));
        let gap = losing_pot - winning_pot;
        proof {
            lemma_stake_le_total(l, i as int);
            lemma_round_div_scaled_le(gap as int, stake as int, losing_pot as int);
            assert((gap as int) * (stake as int) == (stake as int) * (gap as int)) by (nonlinear_arith);
            assert((stake as int) * (gap as int) <= 0xFFFF_FFFF_FFFF_FFFE_0000_0000_0000_0001)
                by (nonlinear_arith)
                requires
                    stake <= 0xFFFF_FFFF_FFFF_FFFFu64,
                    gap <= 0xFFFF_FFFF_FFFF_FFFFu64,
            ;
        }
        let refund = rounded_quotient(stake as u128 * gap as u128, losing_pot as u128) as Currency;
        assert(refund == underdog_refund(stake as int, winning_pot as int, losing_pot as int));
        let amount = if player == winner {
            refund + prize
        } else {
            refund
        };
        let ghost before = out@;
        out.push((player, amount));
        assert forall|j: int| 0 <= j <= i implies #[trigger] out@[offset + j].0 == l[j].0
            && out@[offset + j].1 == underdog_refund(l[j].1 as int, winning_pot as int, losing_pot as int)
            + if l[j].0 == winner {
            prize as int
        } else {
            0
        } by {
            if j < i {
                assert(out@[offset + j] == before[offset + j]);
                assert(before[offset + j].0 == l[j].0);
            } else {
                assert(out@[offset + j] == (player, amount));
            }
        }
        i = i + 1;
    }
    let ghost expected = underdog_settlements(w, l);
    assert(as_amounts(out@) =~= expected) by {
        if !merged {
            assert(expected[0] == (winner, prize as int));
        }
        assert forall|k: int| 0 <= k < out@.len() implies #[trigger] as_amounts(out@)[k]
            == expected[k] by {
            if k >= offset {
                let j = k - offset;
                assert(out@[offset + j].0 == l[j].0);
            }
        }
    }
    assert(unique_players(out@)) by {
        assert forall|a: int, b: int|
            0 <= a < out@.len() && 0 <= b < out@.len() && #[trigger] out@[a].0
                == #[trigger] out@[b].0 implies a == b by {
            if a >= offset && b >= offset {
                assert(out@[offset + (a - offset)].0 == l[a - offset].0);
                assert(out@[offset + (b - offset)].0 == l[b - offset].0);
            } else if a >= offset {
                assert(out@[offset + (a - offset)].0 == l[a - offset].0);
            } else if b >= offset {
                assert(out@[offset + (b - offset)].0 == l[b - offset].0);
            }
        }
    }
    out
}

/// Shares the losing pot among the winners in proportion to their stakes.
pub(crate) fn settle_proportional(
    winners: &Vec<(PlayerUuid, Currency)>,
    winning_pot: Currency,
    losing_pot: Currency,
) -> (r: Vec<(PlayerUuid, Currency)>)
    requires
        winning_pot == total(winners@),
        winning_pot + losing_pot <= Currency::MAX,
        unique_players(winners@),
    ensures
        as_amounts(r@) == proportional_settlements(winners@, winning_pot as int, losing_pot as int),
        unique_players(r@),
{
    let ghost w = winners@;
    let mut out: Vec<(PlayerUuid, Currency)> = Vec::new();
    let mut i: usize = 0;
    while i < winners.len()
        invariant
            w == winners@,
            i <= w.len(),
            winning_pot == total(w),
            winning_pot + losing_pot <= Currency::MAX,
            out@.len() == i,
            forall|j: int|
                0 <= j < i ==> #[trigger] out@[j].0 == w[j].0 && out@[j].1 == proportional_winnings(
                    w[j].1 as int,
                    winning_pot as int,
                    losing_pot as int,
                ),
        decreases w.len() - i,
    {
        let (player, stake) = winners[i];
        proof {
            lemma_stake_le_total(w, i as int);
            if winning_pot > 0 {
                lemma_round_div_scaled_le(losing_pot as int, stake as int, winning_pot as int);
            }
            assert((losing_pot as int) * (stake as int) == (stake as int) * (losing_pot as int))
                by (nonlinear_arith);
            assert((stake as int) * (losing_pot as int) <= 0xFFFF_FFFF_FFFF_FFFE_0000_0000_0000_0001)
                by (nonlinear_arith)
                requires
                    stake <= 0xFFFF_FFFF_FFFF_FFFFu64,
                    losing_pot <= 0xFFFF_FFFF_FFFF_FFFFu64,
            ;
        }
        let share = rounded_quotient(stake as u128 * losing_pot as u128, winning_pot as u128) as Currency;
        assert(stake + share == proportional_winnings(stake as int, winning_pot as int, losing_pot as int));
        out.push((player, stake + share));
        i = i + 1;
    }
    assert(as_amounts(out@) =~= proportional_settlements(w, winning_pot as int, losing_pot as int));
    assert(unique_players(out@)) by {
        assert forall|a: int, b: int|
            0 <= a < out@.len() && 0 <= b < out@.len() && #[trigger] out@[a].0
                == #[trigger] out@[b].0 implies a == b by {
            assert(w[a].0 == w[b].0);
        }
    }
    out
}

} // verus!
