//! The betting pool with two outcomes.
use vstd::prelude::*;

use crate::ids::random_uuid;
use crate::ledger::{
    find_player, has_player, lemma_index_of_unique, lemma_total_nonneg, raised, sum_stakes, total,
    unique_players,
};
use crate::payout::{as_amounts, settle_proportional, settle_underdog, settlements};
use crate::player::{Player, PlayerUuid};
use crate::Currency;

verus! {

/// The identity of a pool.
#[derive(Debug, Clone, Copy, PartialEq, Eq, Structural, PartialOrd, Ord, Hash)]
pub struct SetUuid(pub u128);

/// Side of a [`Set2`].
#[derive(Debug, Clone, Copy, PartialEq, Eq, Structural, PartialOrd, Ord)]
pub enum Set2Side {
    Side1,
    Side2,
}

impl Set2Side {
    /// The opposite side.
    pub open spec fn other(self) -> Set2Side {
        match self {
            Set2Side::Side1 => Set2Side::Side2,
            Set2Side::Side2 => Set2Side::Side1,
        }
    }
}

/// An error with making a bet or a raise.
#[derive(Debug, Clone, Copy, PartialEq, Eq, Structural, PartialOrd, Ord)]
pub enum BetError {
    /// Player does not have enough balance to make the bet.
    InsufficientBalance,
    /// Player already exists in the set, thus a new bet cannot be placed.
    PlayerExists,
    /// Player does not exist in the set, thus a raise cannot be made.
    PlayerNotExists,
}

impl BetError {
    /// What went wrong, in words.
    pub open spec fn spec_message(self) -> Seq<char> {
        match self {
            BetError::InsufficientBalance => "Player does not have enough balance to make the bet."@,
            BetError::PlayerExists => "Player already exists in the set, thus a new bet cannot be placed."@,
            BetError::PlayerNotExists => "Player does not exist in the set, thus a raise cannot be made."@,
        }
    }

    /// What went wrong, in words.
    pub fn message(&self) -> (r: &'static str)
        ensures
            r@ == self.spec_message(),
    {
        match self {
            BetError::InsufficientBalance => "Player does not have enough balance to make the bet.",
            BetError::PlayerExists => "Player already exists in the set, thus a new bet cannot be placed.",
            BetError::PlayerNotExists => "Player does not exist in the set, thus a raise cannot be made.",
        }
    }
}

/// Outcome of a new bet of `amount` by player `p`, holding `balance`, on a side
/// whose ledger is `l`.
pub open spec fn bet_result(
    l: Seq<(PlayerUuid, Currency)>,
    p: PlayerUuid,
    balance: Currency,
    amount: Currency,
) -> Result<(), BetError> {
    if balance < amount {
        Err(BetError::InsufficientBalance)
    } else if has_player(l, p) {
        Err(BetError::PlayerExists)
    } else {
        Ok(())
    }
}

/// The ledger after that bet.
pub open spec fn ledger_after_bet(
    l: Seq<(PlayerUuid, Currency)>,
    p: PlayerUuid,
    balance: Currency,
    amount: Currency,
) -> Seq<(PlayerUuid, Currency)> {
    if bet_result(l, p, balance, amount) is Ok {
        l.push((p, amount))
    } else {
        l
    }
}

/// Outcome of raising by `amount` the bet of player `p`, holding `balance`, on
/// a side whose ledger is `l`.
pub open spec fn raise_result(
    l: Seq<(PlayerUuid, Currency)>,
    p: PlayerUuid,
    balance: Currency,
    amount: Currency,
) -> Result<(), BetError> {
    if balance < amount {
        Err(BetError::InsufficientBalance)
    } else if !has_player(l, p) {
        Err(BetError::PlayerNotExists)
    } else {
        Ok(())
    }
}

/// The ledger after that raise.
pub open spec fn ledger_after_raise(
    l: Seq<(PlayerUuid, Currency)>,
    p: PlayerUuid,
    balance: Currency,
    amount: Currency,
) -> Seq<(PlayerUuid, Currency)> {
    if raise_result(l, p, balance, amount) is Ok {
        raised(l, p, amount)
    } else {
        l
    }
}

/// Outcome of a bet that falls back to a raise when the player has already bet.
pub open spec fn bet_or_raise_result(
    l: Seq<(PlayerUuid, Currency)>,
    p: PlayerUuid,
    balance: Currency,
    amount: Currency,
) -> Result<(), BetError> {
    match bet_result(l, p, balance, amount) {
        Err(BetError::PlayerExists) => raise_result(l, p, balance, amount),
        r => r,
    }
}

/// The ledger after that bet or raise.
pub open spec fn ledger_after_bet_or_raise(
    l: Seq<(PlayerUuid, Currency)>,
    p: PlayerUuid,
    balance: Currency,
    amount: Currency,
) -> Seq<(PlayerUuid, Currency)> {
    match bet_result(l, p, balance, amount) {
        Err(BetError::PlayerExists) => ledger_after_raise(l, p, balance, amount),
        _ => ledger_after_bet(l, p, balance, amount),
    }
}

/// The player's balance after an operation with result `r` that stakes `amount`.
pub open spec fn balance_after(r: Result<(), BetError>, balance: Currency, amount: Currency) -> int {
    if r is Ok {
        balance - amount
    } else {
        balance as int
    }
}

/// The abstract state of a [`Set2`].
pub struct Set2View {
    pub uuid: SetUuid,
    pub creator_uuid: PlayerUuid,
    pub bet_basis: Seq<char>,
    pub comments: Seq<(PlayerUuid, String)>,
    pub side_1_bets: Seq<(PlayerUuid, Currency)>,
    pub side_2_bets: Seq<(PlayerUuid, Currency)>,
}

impl Set2View {
    /// The ledger of `side`.
    pub open spec fn bets(self, side: Set2Side) -> Seq<(PlayerUuid, Currency)> {
        match side {
            Set2Side::Side1 => self.side_1_bets,
            Set2Side::Side2 => self.side_2_bets,
        }
    }

    /// This state with the ledger of `side` replaced by `l`.
    pub open spec fn with_bets(self, side: Set2Side, l: Seq<(PlayerUuid, Currency)>) -> Set2View {
        match side {
            Set2Side::Side1 => Set2View { side_1_bets: l, ..self },
            Set2Side::Side2 => Set2View { side_2_bets: l, ..self },
        }
    }

    /// Each ledger holds at most one entry per player.
    pub open spec fn well_formed(self) -> bool {
        unique_players(self.side_1_bets) && unique_players(self.side_2_bets)
    }

    /// What is wagered on both sides together.
    pub open spec fn pot(self) -> int {
        total(self.side_1_bets) + total(self.side_2_bets)
    }
}

/// Betting set with two outcomes. A player can bet on both sides at once.
#[derive(Debug, Clone, PartialEq, Eq)]
pub struct Set2 {
    /// UUID of the set
    uuid: SetUuid,
    /// UUID of the user that created the set
    creator_uuid: PlayerUuid,
    /// Description of what the set is betting on happening or not happening
    bet_basis: String,
    /// Comments users have placed on this set, one per player
    comments: Vec<(PlayerUuid, String)>,
    /// Player UUID and bet amount, in the order the bets were made
    side_1_bets: Vec<(PlayerUuid, Currency)>,
    /// Player UUID and bet amount, in the order the bets were made
    side_2_bets: Vec<(PlayerUuid, Currency)>,
}

impl View for Set2 {
    type V = Set2View;

    closed spec fn view(&self) -> Set2View {
        Set2View {
            uuid: self.uuid,
            creator_uuid: self.creator_uuid,
            bet_basis: self.bet_basis@,
            comments: self.comments@,
            side_1_bets: self.side_1_bets@,
            side_2_bets: self.side_2_bets@,
        }
    }
}

impl Set2 {
    /// A new set with a fresh identity and no bets.
    pub fn new(creator_uuid: PlayerUuid, bet_basis: String) -> (r: Self)
        ensures
            r@.creator_uuid == creator_uuid,
            r@.bet_basis == bet_basis@,
            r@.comments.len() == 0,
            r@.side_1_bets.len() == 0,
            r@.side_2_bets.len() == 0,
            r@.well_formed(),
    {
        Set2 {
            uuid: SetUuid(random_uuid()),
            creator_uuid,
            bet_basis,
            comments: Vec::new(),
            side_1_bets: Vec::new(),
            side_2_bets: Vec::new(),
        }
    }

    fn side_bets(&self, side: Set2Side) -> (r: &Vec<(PlayerUuid, Currency)>)
        ensures
            r@ == self@.bets(side),
    {
        match side {
            Set2Side::Side1 => &self.side_1_bets,
            Set2Side::Side2 => &self.side_2_bets,
        }
    }

    /// Appends the entry of a player who has none on `side`.
    fn push_bet(&mut self, side: Set2Side, p: PlayerUuid, amount: Currency)
        requires
            old(self)@.well_formed(),
            !has_player(old(self)@.bets(side), p),
        ensures
            final(self)@ == old(self)@.with_bets(side, old(self)@.bets(side).push((p, amount))),
            final(self)@.well_formed(),
    {
        let ghost l = self@.bets(side).push((p, amount));
        assert(unique_players(l)) by {
            assert forall|i: int, j: int|
                0 <= i < l.len() && 0 <= j < l.len() && #[trigger] l[i].0 == #[trigger] l[j].0
                implies i == j by {
                if i < l.len() - 1 && j == l.len() - 1 {
                    assert(self@.bets(side)[i].0 == p);
                } else if j < l.len() - 1 && i == l.len() - 1 {
                    assert(self@.bets(side)[j].0 == p);
                }
            }
        }
        match side {
            Set2Side::Side1 => self.side_1_bets.push((p, amount)),
            Set2Side::Side2 => self.side_2_bets.push((p, amount)),
        }
    }

    /// Replaces the amount of the entry at `i` on `side`.
    fn set_bet(&mut self, side: Set2Side, i: usize, amount: Currency)
        requires
            old(self)@.well_formed(),
            i < old(self)@.bets(side).len(),
        ensures
            final(self)@ == old(self)@.with_bets(
                side,
                old(self)@.bets(side).update(i as int, (old(self)@.bets(side)[i as int].0, amount)),
            ),
            final(self)@.well_formed(),
    {
        let ghost l = self@.bets(side).update(i as int, (self@.bets(side)[i as int].0, amount));
        assert(unique_players(l)) by {
            assert forall|a: int, b: int|
                0 <= a < l.len() && 0 <= b < l.len() && #[trigger] l[a].0 == #[trigger] l[b].0
                implies a == b by {
                assert(self@.bets(side)[a].0 == l[a].0);
                assert(self@.bets(side)[b].0 == l[b].0);
            }
        }
        match side {
            Set2Side::Side1 => {
                let p = self.side_1_bets[i].0;
                self.side_1_bets.set(i, (p, amount));
            },
            Set2Side::Side2 => {
                let p = self.side_2_bets[i].0;
                self.side_2_bets.set(i, (p, amount));
            },
        }
    }

    /// Bet as `player` on `side` with `amount`. Reduces the player's balance by
    /// amount if they have enough.
    ///
    /// # Errors
    /// * [`InsufficientBalance`](BetError::InsufficientBalance) - Insufficient balance to bet.
    /// * [`PlayerExists`](BetError::PlayerExists) - Player cannot initiate a new bet, as they've already bet.
    pub fn bet<P: Player>(&mut self, player: &mut P, side: Set2Side, amount: Currency) -> (r:
        Result<(), BetError>)
        requires
            old(self)@.well_formed(),
        ensures
            final(self)@.well_formed(),
            r == bet_result(
                old(self)@.bets(side),
                old(player).spec_uuid(),
                old(player).spec_balance(),
                amount,
            ),
            final(self)@ == old(self)@.with_bets(
                side,
                ledger_after_bet(
                    old(self)@.bets(side),
                    old(player).spec_uuid(),
                    old(player).spec_balance(),
                    amount,
                ),
            ),
            final(player).spec_balance() == balance_after(r, old(player).spec_balance(), amount),
            final(player).spec_uuid() == old(player).spec_uuid(),
            final(player).spec_name() == old(player).spec_name(),
            r is Err ==> *final(player) == *old(player),
    {
        let uuid = *player.uuid();
        let balance = player.balance();
        if balance < amount {
            return Err(BetError::InsufficientBalance);
        }
        if find_player(self.side_bets(side), uuid).is_some() {
            return Err(BetError::PlayerExists);
        }
        let reduced = balance.saturating_sub(amount);
        let b = player.balance_mut();
        *b = reduced;
        self.push_bet(side, uuid, amount);
        Ok(())
    }

    /// Raise an already-existing bet on `side` as `player` for `amount`. Reduces
    /// the player's balance by amount if they have enough. The stake grows by
    /// `amount`, clamped at the largest amount.
    ///
    /// # Errors
    /// - [`InsufficientBalance`](BetError::InsufficientBalance) - Insufficient balance to bet.
    /// - [`PlayerNotExists`](BetError::PlayerNotExists) - Player cannot raise their bet, as they've yet to bet at all.
    pub fn raise<P: Player>(&mut self, player: &mut P, side: Set2Side, amount: Currency) -> (r:
        Result<(), BetError>)
        requires
            old(self)@.well_formed(),
        ensures
            final(self)@.well_formed(),
            r == raise_result(
                old(self)@.bets(side),
                old(player).spec_uuid(),
                old(player).spec_balance(),
                amount,
            ),
            final(self)@ == old(self)@.with_bets(
                side,
                ledger_after_raise(
                    old(self)@.bets(side),
                    old(player).spec_uuid(),
                    old(player).spec_balance(),
                    amount,
                ),
            ),
            final(player).spec_balance() == balance_after(r, old(player).spec_balance(), amount),
            final(player).spec_uuid() == old(player).spec_uuid(),
            final(player).spec_name() == old(player).spec_name(),
            r is Err ==> *final(player) == *old(player),
    {
        let uuid = *player.uuid();
        let balance = player.balance();
        if balance < amount {
            return Err(BetError::InsufficientBalance);
        }
        match find_player(self.side_bets(side), uuid) {
            None => Err(BetError::PlayerNotExists),
            Some(i) => {
                proof {
                    lemma_index_of_unique(self@.bets(side), uuid, i as int);
                }
                let reduced = balance.saturating_sub(amount);
                let b = player.balance_mut();
                *b = reduced;
                let current = self.side_bets(side)[i].1;
                self.set_bet(side, i, current.saturating_add(amount));
                Ok(())
            },
        }
    }

    /// If no bet exists yet for `side` for `player`, make a new bet with
    /// `amount`. If a bet already exists for `side` for `player`, raise that bet
    /// by `amount`. Exactly one of the two debits the balance.
    ///
    /// # Errors
    /// - [`InsufficientBalance`](BetError::InsufficientBalance) - Insufficient balance to bet.
    pub fn bet_or_raise<P: Player>(&mut self, player: &mut P, side: Set2Side, amount: Currency) -> (r:
        Result<(), BetError>)
        requires
            old(self)@.well_formed(),
        ensures
            final(self)@.well_formed(),
            r == bet_or_raise_result(
                old(self)@.bets(side),
                old(player).spec_uuid(),
                old(player).spec_balance(),
                amount,
            ),
            final(self)@ == old(self)@.with_bets(
                side,
                ledger_after_bet_or_raise(
                    old(self)@.bets(side),
                    old(player).spec_uuid(),
                    old(player).spec_balance(),
                    amount,
                ),
            ),
            final(player).spec_balance() == balance_after(r, old(player).spec_balance(), amount),
            final(player).spec_uuid() == old(player).spec_uuid(),
            final(player).spec_name() == old(player).spec_name(),
            r is Err ==> *final(player) == *old(player),
    {
        match self.bet(player, side, amount) {
            Err(BetError::PlayerExists) => self.raise(player, side, amount),
            x => x,
        }
    }

    /// Does `side` contain `player_uuid`?
    pub fn side_has_player(&self, player_uuid: &PlayerUuid, side: Set2Side) -> (r: bool)
        ensures
            r == has_player(self@.bets(side), *player_uuid),
    {
        find_player(self.side_bets(side), *player_uuid).is_some()
    }

    /// Does the set contain `player_uuid` on either side?
    pub fn contains_player(&self, player_uuid: &PlayerUuid) -> (r: bool)
        ensures
            r == (has_player(self@.side_1_bets, *player_uuid) || has_player(
                self@.side_2_bets,
                *player_uuid,
            )),
    {
        self.side_has_player(player_uuid, Set2Side::Side1) || self.side_has_player(
            player_uuid,
            Set2Side::Side2,
        )
    }

    /// The total amount of currency that has been wagered by all players on side 1.
    pub fn side_1_pot(&self) -> (r: Currency)
        requires
            total(self@.side_1_bets) <= Currency::MAX,
        ensures
            r == total(self@.side_1_bets),
    {
        sum_stakes(&self.side_1_bets)
    }

    /// The total amount of currency that has been wagered by all players on side 2.
    pub fn side_2_pot(&self) -> (r: Currency)
        requires
            total(self@.side_2_bets) <= Currency::MAX,
        ensures
            r == total(self@.side_2_bets),
    {
        sum_stakes(&self.side_2_bets)
    }

    /// The total amount of currency that has been wagered on both sides by all players.
    pub fn pot_size(&self) -> (r: Currency)
        requires
            self@.pot() <= Currency::MAX,
        ensures
            r == self@.pot(),
    {
        proof {
            lemma_total_nonneg(self@.side_1_bets);
            lemma_total_nonneg(self@.side_2_bets);
        }
        self.side_1_pot() + self.side_2_pot()
    }

    /// Calculate payout: who receives how much once `winner` has won.
    ///
    /// When the winning side holds a single player whose stake is below the
    /// losing side's pot, that player receives their stake plus the losing pot
    /// scaled by the ratio of the two pots, and each loser is refunded the
    /// rest of their stake in proportion. Otherwise each winner receives their
    /// stake plus their share of the losing pot, in proportion to their stake,
    /// and losers receive nothing. Amounts are rounded to the nearest unit,
    /// halves up. When the losing side is empty, winners get their stake back.
    /// Each player appears at most once. The ledgers are left as they are and
    /// the pool stays open: refusing further bets after a payout, and paying
    /// the amounts out to balances, is the caller's business.
    pub fn payout(&self, winner: Set2Side) -> (r: Vec<(PlayerUuid, Currency)>)
        requires
            self@.well_formed(),
            self@.pot() <= Currency::MAX,
        ensures
            as_amounts(r@) == settlements(self@.bets(winner), self@.bets(winner.other())),
            unique_players(r@),
    {
        let (winners, losers) = match winner {
            Set2Side::Side1 => (&self.side_1_bets, &self.side_2_bets),
            Set2Side::Side2 => (&self.side_2_bets, &self.side_1_bets),
        };
        proof {
            lemma_total_nonneg(winners@);
            lemma_total_nonneg(losers@);
        }
        let winning_pot = sum_stakes(winners);
        let losing_pot = sum_stakes(losers);
        if winners.len() == 1 && winning_pot < losing_pot {
            settle_underdog(winners, losers, winning_pot, losing_pot)
        } else {
            settle_proportional(winners, winning_pot, losing_pot)
        }
    }
}

} // verus!
